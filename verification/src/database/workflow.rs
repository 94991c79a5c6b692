//! Meeting lifecycle and processing-job state machines: their rules, and the stored records they move.
use vstd::prelude::*;
use super::{Database, DatabaseError};
use crate::sql::{
    key_params, opt_text_view, params_view, text_param, ParamView, optional_text_param, query_optional_text, begin_immediate, column_i64, column_opt_text, column_text, commit, execute, guard_connection,
    guard_connection_mut, next_row, prepare, query, transaction_connection, SqlParam,
};
use crate::json::{json_from_text, json_to_text, json_values_equal};
use crate::text::{push_signed_decimal, push_str, str_equals};

verus! {

/// Lifecycle of a meeting record.
#[derive(Clone, Copy, Debug, PartialEq, Eq, Structural)]
pub enum MeetingState {
    Draft,
    Recording,
    Paused,
    Processing,
    Ready,
    Failed,
    Archived,
}

/// The edges of the meeting lifecycle graph.
pub open spec fn spec_can_transition(from: MeetingState, to: MeetingState) -> bool {
    match (from, to) {
        (MeetingState::Draft, MeetingState::Recording) => true,
        (MeetingState::Recording, MeetingState::Paused) => true,
        (MeetingState::Recording, MeetingState::Processing) => true,
        (MeetingState::Paused, MeetingState::Recording) => true,
        (MeetingState::Paused, MeetingState::Processing) => true,
        (MeetingState::Processing, MeetingState::Ready) => true,
        (MeetingState::Processing, MeetingState::Failed) => true,
        (MeetingState::Failed, MeetingState::Processing) => true,
        (MeetingState::Ready, MeetingState::Processing) => true,
        (MeetingState::Draft, MeetingState::Archived) => true,
        (MeetingState::Ready, MeetingState::Archived) => true,
        (MeetingState::Failed, MeetingState::Archived) => true,
        (MeetingState::Archived, MeetingState::Draft) => true,
        (MeetingState::Archived, MeetingState::Ready) => true,
        (MeetingState::Archived, MeetingState::Failed) => true,
        _ => false,
    }
}

/// The name under which a meeting state is stored.
pub open spec fn meeting_state_name(s: MeetingState) -> Seq<char> {
    match s {
        MeetingState::Draft => "draft"@,
        MeetingState::Recording => "recording"@,
        MeetingState::Paused => "paused"@,
        MeetingState::Processing => "processing"@,
        MeetingState::Ready => "ready"@,
        MeetingState::Failed => "failed"@,
        MeetingState::Archived => "archived"@,
    }
}

impl MeetingState {
    /// The stored name of the state.
    pub fn as_str(self) -> (r: &'static str)
        ensures
            r@ == meeting_state_name(self),
    {
        match self {
            MeetingState::Draft => "draft",
            MeetingState::Recording => "recording",
            MeetingState::Paused => "paused",
            MeetingState::Processing => "processing",
            MeetingState::Ready => "ready",
            MeetingState::Failed => "failed",
            MeetingState::Archived => "archived",
        }
    }

    /// Whether the lifecycle graph has an edge from this state to `next`.
    pub fn can_transition_to(self, next: MeetingState) -> (r: bool)
        ensures
            r == spec_can_transition(self, next),
    {
        match (self, next) {
            (MeetingState::Draft, MeetingState::Recording) => true,
            (MeetingState::Recording, MeetingState::Paused | MeetingState::Processing) => true,
            (MeetingState::Paused, MeetingState::Recording | MeetingState::Processing) => true,
            (MeetingState::Processing, MeetingState::Ready | MeetingState::Failed) => true,
            (MeetingState::Failed | MeetingState::Ready, MeetingState::Processing) => true,
            (MeetingState::Draft | MeetingState::Ready | MeetingState::Failed, MeetingState::Archived) => true,
            (MeetingState::Archived, MeetingState::Draft | MeetingState::Ready | MeetingState::Failed) => true,
            _ => false,
        }
    }

    /// Reads a stored state name; any other text is refused as an invalid stored state.
    pub fn parse(value: &str) -> (r: Result<MeetingState, WorkflowError>)
        ensures
            match r {
                Ok(s) => meeting_state_name(s) == value@,
                Err(e) => e@ == WorkflowFault::InvalidStoredState(value@)
                    && forall|s: MeetingState| meeting_state_name(s) != value@,
            },
    {
        if str_equals(value, "draft") {
            Ok(MeetingState::Draft)
        } else if str_equals(value, "recording") {
            Ok(MeetingState::Recording)
        } else if str_equals(value, "paused") {
            Ok(MeetingState::Paused)
        } else if str_equals(value, "processing") {
            Ok(MeetingState::Processing)
        } else if str_equals(value, "ready") {
            Ok(MeetingState::Ready)
        } else if str_equals(value, "failed") {
            Ok(MeetingState::Failed)
        } else if str_equals(value, "archived") {
            Ok(MeetingState::Archived)
        } else {
            assert forall|s: MeetingState| meeting_state_name(s) != value@ by {
                match s {
                    MeetingState::Draft => {},
                    MeetingState::Recording => {},
                    MeetingState::Paused => {},
                    MeetingState::Processing => {},
                    MeetingState::Ready => {},
                    MeetingState::Failed => {},
                    MeetingState::Archived => {},
                }
            }
            Err(WorkflowError::InvalidStoredState(value.to_string()))
        }
    }

    /// The name `Debug` gives the state, used in messages.
    pub fn label(self) -> (r: &'static str)
        ensures
            r@ == meeting_state_label(self),
    {
        match self {
            MeetingState::Draft => "Draft",
            MeetingState::Recording => "Recording",
            MeetingState::Paused => "Paused",
            MeetingState::Processing => "Processing",
            MeetingState::Ready => "Ready",
            MeetingState::Failed => "Failed",
            MeetingState::Archived => "Archived",
        }
    }
}

/// The name `Debug` gives a meeting state, as messages show it.
pub open spec fn meeting_state_label(s: MeetingState) -> Seq<char> {
    match s {
        MeetingState::Draft => "Draft"@,
        MeetingState::Recording => "Recording"@,
        MeetingState::Paused => "Paused"@,
        MeetingState::Processing => "Processing"@,
        MeetingState::Ready => "Ready"@,
        MeetingState::Failed => "Failed"@,
        MeetingState::Archived => "Archived"@,
    }
}

/// Distinct meeting states are stored under distinct names, so a stored name reads back
/// as the state that wrote it.
pub proof fn lemma_meeting_state_names_distinct(a: MeetingState, b: MeetingState)
    ensures
        meeting_state_name(a) == meeting_state_name(b) ==> a == b,
{
    reveal_strlit("draft");
    reveal_strlit("recording");
    reveal_strlit("paused");
    reveal_strlit("processing");
    reveal_strlit("ready");
    reveal_strlit("failed");
    reveal_strlit("archived");
    if meeting_state_name(a) == meeting_state_name(b) {
        assert(meeting_state_name(a).len() == meeting_state_name(b).len());
        assert(meeting_state_name(a)[0] == meeting_state_name(b)[0]);
        assert(meeting_state_name(a)[1] == meeting_state_name(b)[1]);
        assert(meeting_state_name(a)[2] == meeting_state_name(b)[2]);
    }
}

/// Lifecycle of a processing job.
#[derive(Clone, Copy, Debug, PartialEq, Eq, Structural)]
pub enum JobState {
    Queued,
    Running,
    Succeeded,
    Failed,
    Cancelled,
}

/// The name under which a job state is stored.
pub open spec fn job_state_name(s: JobState) -> Seq<char> {
    match s {
        JobState::Queued => "queued"@,
        JobState::Running => "running"@,
        JobState::Succeeded => "succeeded"@,
        JobState::Failed => "failed"@,
        JobState::Cancelled => "cancelled"@,
    }
}

impl JobState {
    /// The stored name of the state.
    pub fn as_str(&self) -> (r: &'static str)
        ensures
            r@ == job_state_name(*self),
    {
        match self {
            JobState::Queued => "queued",
            JobState::Running => "running",
            JobState::Succeeded => "succeeded",
            JobState::Failed => "failed",
            JobState::Cancelled => "cancelled",
        }
    }

    /// Reads a stored state name; any other text is refused as an invalid stored state.
    pub fn parse(value: &str) -> (r: Result<JobState, WorkflowError>)
        ensures
            match r {
                Ok(s) => job_state_name(s) == value@,
                Err(e) => e@ == WorkflowFault::InvalidStoredState(value@)
                    && forall|s: JobState| job_state_name(s) != value@,
            },
    {
        if str_equals(value, "queued") {
            Ok(JobState::Queued)
        } else if str_equals(value, "running") {
            Ok(JobState::Running)
        } else if str_equals(value, "succeeded") {
            Ok(JobState::Succeeded)
        } else if str_equals(value, "failed") {
            Ok(JobState::Failed)
        } else if str_equals(value, "cancelled") {
            Ok(JobState::Cancelled)
        } else {
            assert forall|s: JobState| job_state_name(s) != value@ by {
                match s {
                    JobState::Queued => {},
                    JobState::Running => {},
                    JobState::Succeeded => {},
                    JobState::Failed => {},
                    JobState::Cancelled => {},
                }
            }
            Err(WorkflowError::InvalidStoredState(value.to_string()))
        }
    }
}

impl std::str::FromStr for MeetingState {
    type Err = WorkflowError;

    fn from_str(value: &str) -> (r: Result<MeetingState, WorkflowError>)
        ensures
            match r {
                Ok(s) => meeting_state_name(s) == value@,
                Err(e) => e@ == WorkflowFault::InvalidStoredState(value@)
                    && forall|s: MeetingState| meeting_state_name(s) != value@,
            },
    {
        MeetingState::parse(value)
    }
}

impl std::str::FromStr for JobState {
    type Err = WorkflowError;

    fn from_str(value: &str) -> (r: Result<JobState, WorkflowError>)
        ensures
            match r {
                Ok(s) => job_state_name(s) == value@,
                Err(e) => e@ == WorkflowFault::InvalidStoredState(value@)
                    && forall|s: JobState| job_state_name(s) != value@,
            },
    {
        JobState::parse(value)
    }
}

/// Distinct job states are stored under distinct names.
pub proof fn lemma_job_state_names_distinct(a: JobState, b: JobState)
    ensures
        job_state_name(a) == job_state_name(b) ==> a == b,
{
    reveal_strlit("queued");
    reveal_strlit("running");
    reveal_strlit("succeeded");
    reveal_strlit("failed");
    reveal_strlit("cancelled");
    if job_state_name(a) == job_state_name(b) {
        assert(job_state_name(a)[0] == job_state_name(b)[0]);
    }
}

/// Why a workflow request was refused or could not be carried out.
#[derive(Debug)]
pub enum WorkflowError {
    Database(DatabaseError),
    Sql(rusqlite::Error),
    Json(serde_json::Error),
    InvalidStoredState(String),
    InvalidTransition { current: MeetingState, requested: MeetingState },
    StateConflict { expected: MeetingState, actual: MeetingState },
    IdempotencyConflict(String),
    MeetingNotFound(String),
    JobNotFound(String),
    InvalidLeaseDuration,
    StaleJobLease(String),
}

/// A workflow error with its texts as character sequences and the outside errors it carries kept as they are.
pub enum WorkflowFault {
    Database(DatabaseError),
    Sql(rusqlite::Error),
    Json(serde_json::Error),
    InvalidStoredState(Seq<char>),
    InvalidTransition { current: MeetingState, requested: MeetingState },
    StateConflict { expected: MeetingState, actual: MeetingState },
    IdempotencyConflict(Seq<char>),
    MeetingNotFound(Seq<char>),
    JobNotFound(Seq<char>),
    InvalidLeaseDuration,
    StaleJobLease(Seq<char>),
}

impl View for WorkflowError {
    type V = WorkflowFault;

    open spec fn view(&self) -> WorkflowFault {
        match self {
            WorkflowError::Database(e) => WorkflowFault::Database(*e),
            WorkflowError::Sql(e) => WorkflowFault::Sql(*e),
            WorkflowError::Json(e) => WorkflowFault::Json(*e),
            WorkflowError::InvalidStoredState(s) => WorkflowFault::InvalidStoredState(s@),
            WorkflowError::InvalidTransition { current, requested } => WorkflowFault::InvalidTransition {
                current: *current,
                requested: *requested,
            },
            WorkflowError::StateConflict { expected, actual } => WorkflowFault::StateConflict {
                expected: *expected,
                actual: *actual,
            },
            WorkflowError::IdempotencyConflict(s) => WorkflowFault::IdempotencyConflict(s@),
            WorkflowError::MeetingNotFound(s) => WorkflowFault::MeetingNotFound(s@),
            WorkflowError::JobNotFound(s) => WorkflowFault::JobNotFound(s@),
            WorkflowError::InvalidLeaseDuration => WorkflowFault::InvalidLeaseDuration,
            WorkflowError::StaleJobLease(s) => WorkflowFault::StaleJobLease(s@),
        }
    }
}

} // verus!

verus! {

impl From<DatabaseError> for WorkflowError {
    fn from(error: DatabaseError) -> (r: Self) {
        WorkflowError::Database(error)
    }
}

impl vstd::std_specs::convert::FromSpecImpl<DatabaseError> for WorkflowError {
    open spec fn obeys_from_spec() -> bool {
        true
    }

    open spec fn from_spec(v: DatabaseError) -> WorkflowError {
        WorkflowError::Database(v)
    }
}

impl From<rusqlite::Error> for WorkflowError {
    fn from(error: rusqlite::Error) -> (r: Self) {
        WorkflowError::Sql(error)
    }
}

impl vstd::std_specs::convert::FromSpecImpl<rusqlite::Error> for WorkflowError {
    open spec fn obeys_from_spec() -> bool {
        true
    }

    open spec fn from_spec(v: rusqlite::Error) -> WorkflowError {
        WorkflowError::Sql(v)
    }
}

impl From<serde_json::Error> for WorkflowError {
    fn from(error: serde_json::Error) -> (r: Self) {
        WorkflowError::Json(error)
    }
}

impl vstd::std_specs::convert::FromSpecImpl<serde_json::Error> for WorkflowError {
    open spec fn obeys_from_spec() -> bool {
        true
    }

    open spec fn from_spec(v: serde_json::Error) -> WorkflowError {
        WorkflowError::Json(v)
    }
}

impl WorkflowError {
    /// A description of the error for the user.
    pub fn message(&self) -> (r: String)
        ensures
            self matches WorkflowError::IdempotencyConflict(key) ==> r@
                == "idempotency key was reused with different input: "@ + key@,
            self matches WorkflowError::MeetingNotFound(id) ==> r@ == "meeting not found: "@ + id@,
            self matches WorkflowError::JobNotFound(id) ==> r@ == "job not found: "@ + id@,
            self matches WorkflowError::StaleJobLease(id) ==> r@ == "job lease is no longer current: "@ + id@,
            self matches WorkflowError::InvalidStoredState(s) ==> r@ == "invalid stored state: "@ + s@,
            self matches WorkflowError::InvalidLeaseDuration ==> r@ == "job lease duration must be positive"@,
            self is Sql ==> "workflow database error: "@.is_prefix_of(r@),
            self is Json ==> "workflow JSON error: "@.is_prefix_of(r@),
            self matches WorkflowError::InvalidTransition { current, requested } ==> r@ == "cannot transition from "@
                + meeting_state_label(*current) + " to "@ + meeting_state_label(*requested),
            self matches WorkflowError::StateConflict { expected, actual } ==> r@ == "meeting state changed: expected "@
                + meeting_state_label(*expected) + ", found "@ + meeting_state_label(*actual),
    {
        match self {
            WorkflowError::Database(error) => error.message(),
            WorkflowError::Sql(error) => {
                let mut s = String::from_str("workflow database error: ");
                let ghost prefix = s@;
                push_str(&mut s, crate::sql::sql_error_text(error).as_str());
                assert(prefix =~= s@.subrange(0, prefix.len() as int));
                s
            },
            WorkflowError::Json(error) => {
                let mut s = String::from_str("workflow JSON error: ");
                let ghost prefix = s@;
                push_str(&mut s, crate::json::json_error_text(error).as_str());
                assert(prefix =~= s@.subrange(0, prefix.len() as int));
                s
            },
            WorkflowError::InvalidStoredState(state) => {
                let mut s = String::from_str("invalid stored state: ");
                push_str(&mut s, state.as_str());
                s
            },
            WorkflowError::InvalidTransition { current, requested } => {
                let mut s = String::from_str("cannot transition from ");
                push_str(&mut s, current.label());
                push_str(&mut s, " to ");
                push_str(&mut s, requested.label());
                s
            },
            WorkflowError::StateConflict { expected, actual } => {
                let mut s = String::from_str("meeting state changed: expected ");
                push_str(&mut s, expected.label());
                push_str(&mut s, ", found ");
                push_str(&mut s, actual.label());
                s
            },
            WorkflowError::IdempotencyConflict(key) => {
                let mut s = String::from_str("idempotency key was reused with different input: ");
                push_str(&mut s, key.as_str());
                s
            },
            WorkflowError::MeetingNotFound(id) => {
                let mut s = String::from_str("meeting not found: ");
                push_str(&mut s, id.as_str());
                s
            },
            WorkflowError::JobNotFound(id) => {
                let mut s = String::from_str("job not found: ");
                push_str(&mut s, id.as_str());
                s
            },
            WorkflowError::InvalidLeaseDuration => String::from_str("job lease duration must be positive"),
            WorkflowError::StaleJobLease(id) => {
                let mut s = String::from_str("job lease is no longer current: ");
                push_str(&mut s, id.as_str());
                s
            },
        }
    }
}

/// A request to move a meeting along one edge of its lifecycle.
#[derive(Debug)]
pub struct MeetingTransitionRequest {
    pub meeting_id: String,
    pub idempotency_key: String,
    pub expected_state: MeetingState,
    pub next_state: MeetingState,
}

/// The outcome of a meeting transition: the state reached and its revision.
#[derive(Debug)]
pub struct MeetingTransition {
    pub meeting_id: String,
    pub state: MeetingState,
    pub revision: i64,
    pub replayed: bool,
}

/// A meeting transition with its texts as character sequences.
pub struct TransitionView {
    pub meeting_id: Seq<char>,
    pub state: MeetingState,
    pub revision: int,
    pub replayed: bool,
}

impl View for MeetingTransition {
    type V = TransitionView;

    open spec fn view(&self) -> TransitionView {
        TransitionView {
            meeting_id: self.meeting_id@,
            state: self.state,
            revision: self.revision as int,
            replayed: self.replayed,
        }
    }
}

/// The audit record of an applied transition, found again by its idempotency key.
#[derive(Debug)]
pub struct StoredTransition {
    pub meeting_id: String,
    pub from_state: MeetingState,
    pub to_state: MeetingState,
    pub resulting_revision: i64,
}

/// The outcome of a transition decision, as values.
pub open spec fn transition_outcome(r: Result<MeetingTransition, WorkflowError>) -> Result<TransitionView, WorkflowFault> {
    match r {
        Ok(t) => Ok(t@),
        Err(e) => Err(e@),
    }
}

/// The recorded transition was made by this very request: same meeting and same edge.
pub open spec fn recorded_for(request: MeetingTransitionRequest, stored: StoredTransition) -> bool {
    &&& stored.meeting_id@ == request.meeting_id@
    &&& stored.from_state == request.expected_state
    &&& stored.to_state == request.next_state
}

/// Answering a request whose idempotency key already has an audit record.
pub open spec fn spec_replay_transition(request: MeetingTransitionRequest, stored: StoredTransition) -> Result<TransitionView, WorkflowFault> {
    if recorded_for(request, stored) {
        Ok(TransitionView {
            meeting_id: stored.meeting_id@,
            state: stored.to_state,
            revision: stored.resulting_revision as int,
            replayed: true,
        })
    } else {
        Err(WorkflowFault::IdempotencyConflict(request.idempotency_key@))
    }
}

/// Applying a fresh request to a meeting found in `current` at `revision`.
pub open spec fn spec_apply_transition(request: MeetingTransitionRequest, current: MeetingState, revision: int) -> Result<TransitionView, WorkflowFault> {
    if current != request.expected_state {
        Err(WorkflowFault::StateConflict { expected: request.expected_state, actual: current })
    } else if !spec_can_transition(current, request.next_state) {
        Err(WorkflowFault::InvalidTransition { current, requested: request.next_state })
    } else {
        Ok(TransitionView {
            meeting_id: request.meeting_id@,
            state: request.next_state,
            revision: revision + 1,
            replayed: false,
        })
    }
}

/// Answers a request whose idempotency key is already recorded: the recorded result, marked as
/// replayed, when the record was made by the same request; an idempotency conflict otherwise.
pub fn replay_transition(request: &MeetingTransitionRequest, stored: StoredTransition) -> (r: Result<MeetingTransition, WorkflowError>)
    ensures
        transition_outcome(r) == spec_replay_transition(*request, stored),
{
    if str_equals(stored.meeting_id.as_str(), request.meeting_id.as_str())
        && stored.from_state == request.expected_state && stored.to_state == request.next_state
    {
        Ok(MeetingTransition {
            meeting_id: stored.meeting_id,
            state: stored.to_state,
            revision: stored.resulting_revision,
            replayed: true,
        })
    } else {
        Err(WorkflowError::IdempotencyConflict(request.idempotency_key.clone()))
    }
}

/// Decides a fresh request against the meeting's current state and revision: the state must be the
/// expected one and the lifecycle graph must have the edge; the revision then advances by one.
pub fn apply_transition(request: &MeetingTransitionRequest, current: MeetingState, revision: i64) -> (r: Result<MeetingTransition, WorkflowError>)
    requires
        revision < i64::MAX,
    ensures
        transition_outcome(r) == spec_apply_transition(*request, current, revision as int),
{
    if current != request.expected_state {
        return Err(WorkflowError::StateConflict { expected: request.expected_state, actual: current });
    }
    if !current.can_transition_to(request.next_state) {
        return Err(WorkflowError::InvalidTransition { current, requested: request.next_state });
    }
    Ok(MeetingTransition {
        meeting_id: request.meeting_id.clone(),
        state: request.next_state,
        revision: revision + 1,
        replayed: false,
    })
}

/// The values a fresh transition writes to the meeting row: the new state and the next revision,
/// for the meeting as it was read at `revision`.
pub open spec fn spec_transition_update(request: MeetingTransitionRequest, revision: int) -> Seq<ParamView> {
    seq![
        ParamView::Text(meeting_state_name(request.next_state)),
        ParamView::Integer(revision + 1),
        ParamView::Text(request.meeting_id@),
        ParamView::Integer(revision),
    ]
}

/// The columns of an audit record after its key: meeting, from state, to state, resulting revision.
pub open spec fn audit_values(meeting_id: Seq<char>, from: MeetingState, to: MeetingState, revision: int) -> Seq<ParamView> {
    seq![
        ParamView::Text(meeting_id),
        ParamView::Text(meeting_state_name(from)),
        ParamView::Text(meeting_state_name(to)),
        ParamView::Integer(revision),
    ]
}

/// The audit record a fresh transition writes: its key, then the meeting, the edge taken and the
/// revision reached.
pub open spec fn spec_transition_audit(request: MeetingTransitionRequest, current: MeetingState, revision: int) -> Seq<ParamView> {
    seq![ParamView::Text(request.idempotency_key@)]
        + audit_values(request.meeting_id@, current, request.next_state, revision + 1)
}

/// The parameters of the meeting update of a fresh transition (see `spec_transition_update`).
pub fn transition_update_params(request: &MeetingTransitionRequest, revision: i64) -> (r: [SqlParam; 4])
    requires
        revision < i64::MAX,
    ensures
        params_view(r@) == spec_transition_update(*request, revision as int),
{
    let r: [SqlParam; 4] = [
        text_param(request.next_state.as_str()),
        SqlParam::Integer(revision + 1),
        text_param(request.meeting_id.as_str()),
        SqlParam::Integer(revision),
    ];
    assert(params_view(r@) =~= spec_transition_update(*request, revision as int));
    r
}

/// The parameters of the audit record of a fresh transition (see `spec_transition_audit`).
pub fn transition_audit_params(request: &MeetingTransitionRequest, current: MeetingState, revision: i64) -> (r: [SqlParam; 5])
    requires
        revision < i64::MAX,
    ensures
        params_view(r@) == spec_transition_audit(*request, current, revision as int),
{
    let r: [SqlParam; 5] = [
        text_param(request.idempotency_key.as_str()),
        text_param(request.meeting_id.as_str()),
        text_param(current.as_str()),
        text_param(request.next_state.as_str()),
        SqlParam::Integer(revision + 1),
    ];
    assert(params_view(r@) =~= spec_transition_audit(*request, current, revision as int));
    r
}

/// A fresh transition decided: what it answers, and what it writes to the meeting row and to the
/// audit log.
pub struct FreshTransition {
    pub transition: MeetingTransition,
    pub update: [SqlParam; 4],
    pub audit: [SqlParam; 5],
}

/// Decides a fresh request against the meeting read in `current` at `revision` (see
/// `apply_transition`) and, when it is allowed, builds its two writes: the meeting update
/// (`spec_transition_update`) and the audit record (`spec_transition_audit`).
pub fn plan_fresh_transition(request: &MeetingTransitionRequest, current: MeetingState, revision: i64) -> (r: Result<FreshTransition, WorkflowError>)
    requires
        revision < i64::MAX,
    ensures
        match r {
            Ok(p) => Ok::<TransitionView, WorkflowFault>(p.transition@),
            Err(e) => Err(e@),
        } == spec_apply_transition(*request, current, revision as int),
        r matches Ok(p) ==> params_view(p.update@) == spec_transition_update(*request, revision as int)
            && params_view(p.audit@) == spec_transition_audit(*request, current, revision as int),
{
    let transition = apply_transition(request, current, revision)?;
    Ok(FreshTransition {
        transition,
        update: transition_update_params(request, revision),
        audit: transition_audit_params(request, current, revision),
    })
}

/// The meeting update must have changed exactly the row read at the expected revision; otherwise
/// another writer moved the meeting first and the request meets a state conflict.
pub fn check_state_updated(changed: usize, expected: MeetingState, actual: MeetingState) -> (r: Result<(), WorkflowError>)
    ensures
        r is Ok <==> changed == 1,
        r matches Err(e) ==> e@ == (WorkflowFault::StateConflict { expected, actual }),
{
    if changed == 1 {
        Ok(())
    } else {
        Err(WorkflowError::StateConflict { expected, actual })
    }
}

/// A stored revision must leave room for the next one; the last representable revision is
/// reported as an invalid stored state.
pub fn check_revision_room(revision: i64, stored_state: &str) -> (r: Result<(), WorkflowError>)
    ensures
        r is Ok <==> revision < i64::MAX,
        r matches Err(e) ==> e@ == WorkflowFault::InvalidStoredState(stored_state@),
{
    if revision == i64::MAX {
        Err(WorkflowError::InvalidStoredState(stored_state.to_string()))
    } else {
        Ok(())
    }
}

/// Repeating a transition request returns the result of its first application, marked as
/// replayed: whatever audit record is read back under the key, when it holds the values the first
/// application wrote (`spec_transition_audit`), answers the repeat with that first result.
pub proof fn lemma_transition_replay_returns_first_result(
    request: MeetingTransitionRequest,
    current: MeetingState,
    revision: int,
    stored: StoredTransition,
)
    requires
        spec_apply_transition(request, current, revision) is Ok,
        seq![ParamView::Text(request.idempotency_key@)]
            + audit_values(stored.meeting_id@, stored.from_state, stored.to_state, stored.resulting_revision as int)
            == spec_transition_audit(request, current, revision),
    ensures
        ({
            let first = spec_apply_transition(request, current, revision)->Ok_0;
            spec_replay_transition(request, stored) == Ok::<TransitionView, WorkflowFault>(TransitionView { replayed: true, ..first })
        }),
{
    let written = spec_transition_audit(request, current, revision);
    let read = seq![ParamView::Text(request.idempotency_key@)]
        + audit_values(stored.meeting_id@, stored.from_state, stored.to_state, stored.resulting_revision as int);
    assert(read[1] == written[1]);
    assert(read[2] == written[2]);
    assert(read[3] == written[3]);
    assert(read[4] == written[4]);
    lemma_meeting_state_names_distinct(stored.from_state, current);
    lemma_meeting_state_names_distinct(stored.to_state, request.next_state);
}

/// Reusing an idempotency key for a request that differs from the recorded one (another meeting,
/// another expected state or another target) is refused with an idempotency conflict.
pub proof fn lemma_reused_key_is_refused(request: MeetingTransitionRequest, stored: StoredTransition)
    requires
        !recorded_for(request, stored),
    ensures
        spec_replay_transition(request, stored) == Err::<TransitionView, WorkflowFault>(
            WorkflowFault::IdempotencyConflict(request.idempotency_key@),
        ),
{
}

/// An applied transition starts from the expected state, follows an edge of the lifecycle graph to
/// the requested state, and advances the revision by exactly one.
pub proof fn lemma_applied_transition_follows_graph(
    request: MeetingTransitionRequest,
    current: MeetingState,
    revision: int,
)
    ensures
        spec_apply_transition(request, current, revision) matches Ok(t) ==> {
            &&& current == request.expected_state
            &&& t.state == request.next_state
            &&& spec_can_transition(current, t.state)
            &&& t.revision == revision + 1
            &&& !t.replayed
        },
{
}

} // verus!

verus! {

/// A processing job as stored, and whether this answer replays an earlier request.
#[derive(Debug)]
pub struct JobSnapshot {
    pub id: String,
    pub meeting_id: Option<String>,
    pub job_kind: String,
    pub state: JobState,
    pub attempt_count: i64,
    pub run_token: Option<String>,
    pub replayed: bool,
}

/// A job with its texts as character sequences.
pub struct JobView {
    pub id: Seq<char>,
    pub meeting_id: Option<Seq<char>>,
    pub job_kind: Seq<char>,
    pub state: JobState,
    pub attempt_count: int,
    pub run_token: Option<Seq<char>>,
    pub replayed: bool,
}

impl View for JobSnapshot {
    type V = JobView;

    open spec fn view(&self) -> JobView {
        JobView {
            id: self.id@,
            meeting_id: self.meeting_id.deep_view(),
            job_kind: self.job_kind@,
            state: self.state,
            attempt_count: self.attempt_count as int,
            run_token: self.run_token.deep_view(),
            replayed: self.replayed,
        }
    }
}

/// A request to schedule a job under a stable idempotency key.
#[derive(Debug)]
pub struct JobSchedule {
    pub id: String,
    pub idempotency_key: String,
    pub meeting_id: Option<String>,
    pub job_kind: String,
    pub payload: serde_json::Value,
}

/// A worker's request for the next job of a kind, under its own run token and lease.
#[derive(Debug)]
pub struct JobClaim<'a> {
    pub job_kind: &'a str,
    pub run_token: &'a str,
    pub lease_seconds: i64,
}

/// How a worker finished a job.
#[derive(Clone, Copy, Debug, PartialEq, Eq)]
pub enum JobCompletion<'a> {
    Succeeded,
    Failed { error_code: &'a str, error_message: &'a str },
}

/// The state a completion moves a job to.
pub open spec fn completion_target(completion: JobCompletion) -> JobState {
    match completion {
        JobCompletion::Succeeded => JobState::Succeeded,
        JobCompletion::Failed { .. } => JobState::Failed,
    }
}

impl<'a> JobCompletion<'a> {
    /// The state this completion moves a job to.
    pub fn target(&self) -> (r: JobState)
        ensures
            r == completion_target(*self),
    {
        match self {
            JobCompletion::Succeeded => JobState::Succeeded,
            JobCompletion::Failed { .. } => JobState::Failed,
        }
    }
}

/// What a request does to a stored job: answer with the job as it is, or move it to a state.
#[derive(Debug)]
pub enum JobStep {
    Replay(JobSnapshot),
    Apply(JobState),
}

/// A job step as values.
pub enum JobStepView {
    Replay(JobView),
    Apply(JobState),
}

/// The outcome of a job decision, as values.
pub open spec fn step_outcome(r: Result<JobStep, WorkflowError>) -> Result<JobStepView, WorkflowFault> {
    match r {
        Ok(JobStep::Replay(j)) => Ok(JobStepView::Replay(j@)),
        Ok(JobStep::Apply(s)) => Ok(JobStepView::Apply(s)),
        Err(e) => Err(e@),
    }
}

/// The outcome of a job request, as values.
pub open spec fn job_outcome(r: Result<JobSnapshot, WorkflowError>) -> Result<JobView, WorkflowFault> {
    match r {
        Ok(j) => Ok(j@),
        Err(e) => Err(e@),
    }
}

/// The job, marked as the answer to a repeated request.
pub open spec fn as_replay(job: JobView) -> JobView {
    JobView { replayed: true, ..job }
}

/// Deciding a completion of `job` by the worker holding `run_token`: a completion already applied
/// by that worker is answered again; otherwise only the worker of the current run may finish it.
pub open spec fn spec_completion_step(job: JobView, job_id: Seq<char>, run_token: Seq<char>, target: JobState) -> Result<JobStepView, WorkflowFault> {
    if job.state == target && job.run_token == Some(run_token) {
        Ok(JobStepView::Replay(as_replay(job)))
    } else if job.state != JobState::Running || job.run_token != Some(run_token) {
        Err(WorkflowFault::StaleJobLease(job_id))
    } else {
        Ok(JobStepView::Apply(target))
    }
}

/// The stored job after a completion to `target` was written: the run token stays.
pub open spec fn spec_finished(job: JobView, target: JobState) -> JobView {
    JobView { state: target, replayed: false, ..job }
}

/// Decides a completion request against the stored job.
pub fn plan_completion(job: JobSnapshot, job_id: &str, run_token: &str, target: JobState) -> (r: Result<JobStep, WorkflowError>)
    ensures
        step_outcome(r) == spec_completion_step(job@, job_id@, run_token@, target),
{
    let token_matches = match &job.run_token {
        Some(token) => str_equals(token.as_str(), run_token),
        None => false,
    };
    if job.state == target && token_matches {
        return Ok(JobStep::Replay(JobSnapshot { replayed: true, ..job }));
    }
    if job.state != JobState::Running || !token_matches {
        return Err(WorkflowError::StaleJobLease(job_id.to_string()));
    }
    Ok(JobStep::Apply(target))
}

/// A completion request is replay-safe: once it has been applied, the same request finds the
/// finished job and answers it again, whichever way the job ended.
pub proof fn lemma_completion_is_replay_safe(job: JobView, job_id: Seq<char>, run_token: Seq<char>, target: JobState)
    requires
        spec_completion_step(job, job_id, run_token, target) == Ok::<JobStepView, WorkflowFault>(JobStepView::Apply(target)),
    ensures
        spec_completion_step(spec_finished(job, target), job_id, run_token, target)
            == Ok::<JobStepView, WorkflowFault>(JobStepView::Replay(as_replay(spec_finished(job, target)))),
{
}

/// Completion is accepted only from the current run token: a worker whose token is not the job's
/// (a stalled worker whose job was reclaimed) gets a stale-lease error and the job is not touched.
pub proof fn lemma_completion_requires_current_token(job: JobView, job_id: Seq<char>, run_token: Seq<char>, target: JobState)
    requires
        job.run_token != Some(run_token),
    ensures
        spec_completion_step(job, job_id, run_token, target) == Err::<JobStepView, WorkflowFault>(WorkflowFault::StaleJobLease(job_id)),
{
}

/// Deciding a retry of `job`: a queued job is answered as it is, a failed one is requeued, and any
/// other is refused.
pub open spec fn spec_retry_step(job: JobView, job_id: Seq<char>) -> Result<JobStepView, WorkflowFault> {
    if job.state == JobState::Queued {
        Ok(JobStepView::Replay(as_replay(job)))
    } else if job.state != JobState::Failed {
        Err(WorkflowFault::StaleJobLease(job_id))
    } else {
        Ok(JobStepView::Apply(JobState::Queued))
    }
}

/// The stored job after a retry was written: queued again, with no run token.
pub open spec fn spec_requeued(job: JobView) -> JobView {
    JobView { state: JobState::Queued, run_token: None, replayed: false, ..job }
}

/// Decides a retry request against the stored job.
pub fn plan_retry(job: JobSnapshot, job_id: &str) -> (r: Result<JobStep, WorkflowError>)
    ensures
        step_outcome(r) == spec_retry_step(job@, job_id@),
{
    if job.state == JobState::Queued {
        return Ok(JobStep::Replay(JobSnapshot { replayed: true, ..job }));
    }
    if job.state != JobState::Failed {
        return Err(WorkflowError::StaleJobLease(job_id.to_string()));
    }
    Ok(JobStep::Apply(JobState::Queued))
}

/// Retrying is replay-safe: once a failed job has been requeued, the same retry answers the queued
/// job again.
pub proof fn lemma_retry_is_replay_safe(job: JobView, job_id: Seq<char>)
    requires
        spec_retry_step(job, job_id) == Ok::<JobStepView, WorkflowFault>(JobStepView::Apply(JobState::Queued)),
    ensures
        spec_retry_step(spec_requeued(job), job_id)
            == Ok::<JobStepView, WorkflowFault>(JobStepView::Replay(as_replay(spec_requeued(job)))),
{
}

/// The stored job was scheduled by this very request: same id, meeting, kind and payload.
pub open spec fn scheduled_by(job: JobView, schedule: JobSchedule, payload_matches: bool) -> bool {
    &&& job.id == schedule.id@
    &&& job.meeting_id == schedule.meeting_id.deep_view()
    &&& job.job_kind == schedule.job_kind@
    &&& payload_matches
}

/// Answering a schedule whose idempotency key already names a job.
pub open spec fn spec_schedule_replay(job: JobView, schedule: JobSchedule, payload_matches: bool) -> Result<JobView, WorkflowFault> {
    if scheduled_by(job, schedule, payload_matches) {
        Ok(as_replay(job))
    } else {
        Err(WorkflowFault::IdempotencyConflict(schedule.idempotency_key@))
    }
}

/// Answers a schedule whose key already names `job`: that job again when it was scheduled with the
/// same inputs (`payload_matches` tells whether the stored payload equals the requested one), an
/// idempotency conflict otherwise.
pub fn replay_schedule(job: JobSnapshot, schedule: &JobSchedule, payload_matches: bool) -> (r: Result<JobSnapshot, WorkflowError>)
    ensures
        job_outcome(r) == spec_schedule_replay(job@, *schedule, payload_matches),
{
    let same_meeting = crate::text::opt_str_eq(&job.meeting_id, &schedule.meeting_id);
    if !str_equals(job.id.as_str(), schedule.id.as_str()) || !same_meeting
        || !str_equals(job.job_kind.as_str(), schedule.job_kind.as_str()) || !payload_matches
    {
        return Err(WorkflowError::IdempotencyConflict(schedule.idempotency_key.clone()));
    }
    Ok(JobSnapshot { replayed: true, ..job })
}

/// Scheduling again with the same inputs returns the existing job instead of a second one; the
/// same key with any other input is refused.
pub proof fn lemma_rescheduling_returns_existing_job(job: JobView, schedule: JobSchedule, payload_matches: bool)
    ensures
        scheduled_by(job, schedule, payload_matches) ==> spec_schedule_replay(job, schedule, payload_matches)
            == Ok::<JobView, WorkflowFault>(as_replay(job)),
        !scheduled_by(job, schedule, payload_matches) ==> spec_schedule_replay(job, schedule, payload_matches)
            == Err::<JobView, WorkflowFault>(WorkflowFault::IdempotencyConflict(schedule.idempotency_key@)),
{
}

/// The row a fresh schedule inserts: id, key, meeting, kind and the payload's text.
pub open spec fn spec_schedule_insert(schedule: JobSchedule, payload: Seq<char>) -> Seq<ParamView> {
    seq![
        ParamView::Text(schedule.id@),
        ParamView::Text(schedule.idempotency_key@),
        opt_text_view(schedule.meeting_id.deep_view()),
        ParamView::Text(schedule.job_kind@),
        ParamView::Text(payload),
    ]
}

/// The parameters of the insert of a fresh schedule (see `spec_schedule_insert`).
pub fn schedule_insert_params(schedule: &JobSchedule, payload: &str) -> (r: [SqlParam; 5])
    ensures
        params_view(r@) == spec_schedule_insert(*schedule, payload@),
{
    let r: [SqlParam; 5] = [
        text_param(schedule.id.as_str()),
        text_param(schedule.idempotency_key.as_str()),
        optional_text_param(&schedule.meeting_id),
        text_param(schedule.job_kind.as_str()),
        text_param(payload),
    ];
    assert(params_view(r@) =~= spec_schedule_insert(*schedule, payload@));
    r
}

/// What a claim writes to the chosen job: the worker's token, its lease, and the job.
pub open spec fn spec_claim_update(claim: JobClaim, job_id: Seq<char>) -> Seq<ParamView> {
    seq![ParamView::Text(claim.run_token@), ParamView::Integer(claim.lease_seconds as int), ParamView::Text(job_id)]
}

/// The parameters of the update of a claimed job (see `spec_claim_update`).
pub fn claim_update_params(claim: &JobClaim<'_>, job_id: &str) -> (r: [SqlParam; 3])
    ensures
        params_view(r@) == spec_claim_update(*claim, job_id@),
{
    let r: [SqlParam; 3] = [text_param(claim.run_token), SqlParam::Integer(claim.lease_seconds), text_param(job_id)];
    assert(params_view(r@) =~= spec_claim_update(*claim, job_id@));
    r
}

/// What a completion writes: the target state, the failure's code and message (NULL on success),
/// for the job run under `run_token`.
pub open spec fn spec_completion_update(completion: JobCompletion, job_id: Seq<char>, run_token: Seq<char>) -> Seq<ParamView> {
    let (code, message) = match completion {
        JobCompletion::Succeeded => (ParamView::Null, ParamView::Null),
        JobCompletion::Failed { error_code, error_message } => (ParamView::Text(error_code@), ParamView::Text(error_message@)),
    };
    seq![
        ParamView::Text(job_state_name(completion_target(completion))),
        code,
        message,
        ParamView::Text(job_id),
        ParamView::Text(run_token),
    ]
}

/// The parameters of the update of a completed job (see `spec_completion_update`).
pub fn completion_update_params(completion: JobCompletion<'_>, job_id: &str, run_token: &str) -> (r: [SqlParam; 5])
    ensures
        params_view(r@) == spec_completion_update(completion, job_id@, run_token@),
{
    let (code, message) = match completion {
        JobCompletion::Succeeded => (SqlParam::Null, SqlParam::Null),
        JobCompletion::Failed { error_code, error_message } => (text_param(error_code), text_param(error_message)),
    };
    let r: [SqlParam; 5] = [
        text_param(completion.target().as_str()),
        code,
        message,
        text_param(job_id),
        text_param(run_token),
    ];
    assert(params_view(r@) =~= spec_completion_update(completion, job_id@, run_token@));
    r
}

/// The transitions that move a meeting interrupted in `state` to failed: through processing when
/// it was recording or paused.
pub open spec fn spec_recovery_path(state: MeetingState) -> Seq<MeetingState> {
    match state {
        MeetingState::Recording | MeetingState::Paused => seq![MeetingState::Processing, MeetingState::Failed],
        MeetingState::Processing => seq![MeetingState::Failed],
        _ => Seq::empty(),
    }
}

/// Each step of `path` is an edge of the lifecycle graph, the first one from `start`.
pub open spec fn follows_graph(start: MeetingState, path: Seq<MeetingState>) -> bool {
    forall|i: int| 0 <= i < path.len() ==> spec_can_transition(
        if i == 0 { start } else { path[i - 1] },
        #[trigger] path[i],
    )
}

/// The states a meeting interrupted in `state` passes through on recovery.
pub fn recovery_path(state: MeetingState) -> (r: Vec<MeetingState>)
    ensures
        r@ == spec_recovery_path(state),
{
    let mut path: Vec<MeetingState> = Vec::new();
    match state {
        MeetingState::Recording | MeetingState::Paused => {
            path.push(MeetingState::Processing);
            path.push(MeetingState::Failed);
        },
        MeetingState::Processing => {
            path.push(MeetingState::Failed);
        },
        _ => {},
    }
    assert(path@ =~= spec_recovery_path(state));
    path
}

/// Recovery moves every meeting interrupted while recording, paused or processing to failed, along
/// edges of the lifecycle graph only.
pub proof fn lemma_recovery_ends_in_failed(state: MeetingState)
    requires
        state == MeetingState::Recording || state == MeetingState::Paused || state == MeetingState::Processing,
    ensures
        spec_recovery_path(state).len() > 0,
        spec_recovery_path(state).last() == MeetingState::Failed,
        follows_graph(state, spec_recovery_path(state)),
{
    let path = spec_recovery_path(state);
    if state == MeetingState::Processing {
        assert(path.len() == 1 && path[0] == MeetingState::Failed);
    } else {
        assert(path.len() == 2 && path[0] == MeetingState::Processing && path[1] == MeetingState::Failed);
    }
}

/// The idempotency key of a recovery step into `next` for a meeting at `revision`.
pub open spec fn spec_recovery_key(next: MeetingState, meeting_id: Seq<char>, revision: int) -> Seq<char> {
    (if next == MeetingState::Processing { "startup-recovery-process:"@ } else { "startup-recovery-fail:"@ })
        + meeting_id + ":"@ + crate::text::signed_decimal(revision)
}

/// The two recovery steps of a meeting never share a key, and a step's key names the revision it
/// starts from, so a recovery repeated after a crash replays exactly the steps already taken.
pub proof fn lemma_recovery_keys_distinct(meeting_id: Seq<char>, a: MeetingState, ra: int, b: MeetingState, rb: int)
    requires
        (a == MeetingState::Processing) != (b == MeetingState::Processing) || ra != rb,
    ensures
        spec_recovery_key(a, meeting_id, ra) != spec_recovery_key(b, meeting_id, rb),
{
    reveal_strlit("startup-recovery-process:");
    reveal_strlit("startup-recovery-fail:");
    let ka = spec_recovery_key(a, meeting_id, ra);
    let kb = spec_recovery_key(b, meeting_id, rb);
    if (a == MeetingState::Processing) != (b == MeetingState::Processing) {
        assert(ka[17] != kb[17]);
    } else if ka == kb {
        let prefix = (if a == MeetingState::Processing { "startup-recovery-process:"@ } else { "startup-recovery-fail:"@ })
            + meeting_id + ":"@;
        assert(ka == prefix + crate::text::signed_decimal(ra));
        assert(kb == prefix + crate::text::signed_decimal(rb));
        assert(crate::text::signed_decimal(ra) =~= ka.subrange(prefix.len() as int, ka.len() as int));
        assert(crate::text::signed_decimal(rb) =~= kb.subrange(prefix.len() as int, kb.len() as int));
        crate::text::lemma_signed_decimal_injective(ra, rb);
    }
}

/// The request for one recovery step of a meeting read at `revision`: from `from` to `next`, under
/// the step's own key.
pub fn recovery_request(meeting_id: &str, from: MeetingState, next: MeetingState, revision: i64) -> (r: MeetingTransitionRequest)
    ensures
        r.meeting_id@ == meeting_id@,
        r.idempotency_key@ == spec_recovery_key(next, meeting_id@, revision as int),
        r.expected_state == from,
        r.next_state == next,
{
    MeetingTransitionRequest {
        meeting_id: meeting_id.to_string(),
        idempotency_key: recovery_key(next, meeting_id, revision),
        expected_state: from,
        next_state: next,
    }
}

/// Builds the idempotency key of a recovery step, so that a recovery repeated after a crash
/// replays its own steps.
pub fn recovery_key(next: MeetingState, meeting_id: &str, revision: i64) -> (r: String)
    ensures
        r@ == spec_recovery_key(next, meeting_id@, revision as int),
{
    let mut key = if next == MeetingState::Processing {
        String::from_str("startup-recovery-process:")
    } else {
        String::from_str("startup-recovery-fail:")
    };
    push_str(&mut key, meeting_id);
    push_str(&mut key, ":");
    push_signed_decimal(&mut key, revision);
    key
}

} // verus!

verus! {

/// An error that comes from the store or from what it holds, not from the request.
pub open spec fn storage_fault(e: WorkflowFault) -> bool {
    e is Database || e is Sql || e is Json || e is InvalidStoredState
}

/// An error a transition can meet: from the store, or a refusal of the request.
pub open spec fn transition_fault(e: WorkflowFault) -> bool {
    storage_fault(e) || e is MeetingNotFound || e is IdempotencyConflict || e is StateConflict || e is InvalidTransition
}

/// The audit record written under `idempotency_key`, if any.
fn find_transition(conn: &rusqlite::Connection, idempotency_key: &str) -> (r: Result<Option<StoredTransition>, WorkflowError>)
    ensures
        r matches Err(e) ==> storage_fault(e@),
{
    let mut statement = lift_sql(prepare(
        conn,
        "SELECT meeting_id, from_state, to_state, resulting_revision
         FROM meeting_transitions
         WHERE idempotency_key = ?1",
    ))?;
    let params = key_params(idempotency_key);
    let mut rows = lift_sql(query(&mut statement, &params))?;
    match lift_sql(next_row(&mut rows))? {
        Some(row) => {
            let meeting_id = lift_sql(column_text(row, 0))?;
            let from_state = lift_sql(column_text(row, 1))?;
            let to_state = lift_sql(column_text(row, 2))?;
            let resulting_revision = lift_sql(column_i64(row, 3))?;
            Ok(Some(StoredTransition {
                meeting_id,
                from_state: MeetingState::parse(from_state.as_str())?,
                to_state: MeetingState::parse(to_state.as_str())?,
                resulting_revision,
            }))
        },
        None => Ok(None),
    }
}

/// Reads a job from a row of `id, meeting_id, job_kind, state, attempt_count, run_token`.
fn map_job(row: &rusqlite::Row<'_>) -> (r: Result<JobSnapshot, WorkflowError>)
    ensures
        r matches Ok(j) ==> !j.replayed,
        r matches Err(e) ==> storage_fault(e@),
{
    let stored_state = lift_sql(column_text(row, 3))?;
    let state = JobState::parse(stored_state.as_str())?;
    Ok(JobSnapshot {
        id: lift_sql(column_text(row, 0))?,
        meeting_id: lift_sql(column_opt_text(row, 1))?,
        job_kind: lift_sql(column_text(row, 2))?,
        state,
        attempt_count: lift_sql(column_i64(row, 4))?,
        run_token: lift_sql(column_opt_text(row, 5))?,
        replayed: false,
    })
}

/// The first job that `sql` selects for `value`, if any.
fn find_job_where(conn: &rusqlite::Connection, sql: &str, value: &str) -> (r: Result<Option<JobSnapshot>, WorkflowError>)
    ensures
        r matches Ok(Some(j)) ==> !j.replayed,
        r matches Err(e) ==> storage_fault(e@),
{
    let mut statement = lift_sql(prepare(conn, sql))?;
    let params = key_params(value);
    let mut rows = lift_sql(query(&mut statement, &params))?;
    match lift_sql(next_row(&mut rows))? {
        Some(row) => Ok(Some(map_job(row)?)),
        None => Ok(None),
    }
}

/// The job with id `job_id`, if any. A row read back under another id is reported as an invalid
/// stored state.
fn find_job(conn: &rusqlite::Connection, job_id: &str) -> (r: Result<Option<JobSnapshot>, WorkflowError>)
    ensures
        r matches Ok(Some(j)) ==> !j.replayed && j.id@ == job_id@,
        r matches Err(e) ==> storage_fault(e@),
{
    let found = find_job_where(
        conn,
        "SELECT id, meeting_id, job_kind, state, attempt_count, run_token
         FROM jobs WHERE id = ?1",
        job_id,
    )?;
    match found {
        Some(job) => {
            if str_equals(job.id.as_str(), job_id) {
                Ok(Some(job))
            } else {
                Err(WorkflowError::InvalidStoredState(job.id))
            }
        },
        None => Ok(None),
    }
}

/// The job scheduled under `idempotency_key`, if any.
fn find_job_by_idempotency_key(conn: &rusqlite::Connection, idempotency_key: &str) -> (r: Result<Option<JobSnapshot>, WorkflowError>)
    ensures
        r matches Ok(Some(j)) ==> !j.replayed,
        r matches Err(e) ==> storage_fault(e@),
{
    find_job_where(
        conn,
        "SELECT id, meeting_id, job_kind, state, attempt_count, run_token
         FROM jobs WHERE idempotency_key = ?1",
        idempotency_key,
    )
}

/// The stored lifecycle state and revision of a meeting, if it exists.
pub(crate) fn find_meeting_revision(conn: &rusqlite::Connection, meeting_id: &str) -> (r: Result<Option<(String, i64)>, rusqlite::Error>) {
    let mut statement = prepare(conn, "SELECT lifecycle_state, state_revision FROM meetings WHERE id = ?1")?;
    let params = key_params(meeting_id);
    let mut rows = query(&mut statement, &params)?;
    match next_row(&mut rows)? {
        Some(row) => Ok(Some((column_text(row, 0)?, column_i64(row, 1)?))),
        None => Ok(None),
    }
}

/// The meetings left recording, paused or processing, with their stored state and revision.
fn interrupted_meetings(conn: &rusqlite::Connection) -> (r: Result<Vec<(String, String, i64)>, rusqlite::Error>) {
    let mut statement = prepare(
        conn,
        "SELECT id, lifecycle_state, state_revision FROM meetings
         WHERE lifecycle_state IN ('recording', 'paused', 'processing')",
    )?;
    let mut rows = query(&mut statement, &[])?;
    let mut found: Vec<(String, String, i64)> = Vec::new();
    loop
        decreases usize::MAX - found.len(),
    {
        match next_row(&mut rows)? {
            Some(row) => {
                let entry = (column_text(row, 0)?, column_text(row, 1)?, column_i64(row, 2)?);
                if found.len() == usize::MAX {
                    break;
                }
                found.push(entry);
            },
            None => break,
        }
    }
    Ok(found)
}

/// A JSON call's result, with a failure reported as a JSON error of the workflow.
fn lift_json<T>(r: Result<T, serde_json::Error>) -> (out: Result<T, WorkflowError>)
    ensures
        r is Ok <==> out is Ok,
        r is Ok ==> out->Ok_0 == r->Ok_0,
        r is Err ==> out->Err_0@ == WorkflowFault::Json(r->Err_0),
{
    match r {
        Ok(value) => Ok(value),
        Err(error) => Err(WorkflowError::Json(error)),
    }
}

/// A database call's result, with a failure reported as a SQL error of the workflow.
fn lift_sql<T>(r: Result<T, rusqlite::Error>) -> (out: Result<T, WorkflowError>)
    ensures
        r is Ok <==> out is Ok,
        r is Ok ==> out->Ok_0 == r->Ok_0,
        r is Err ==> out->Err_0@ == WorkflowFault::Sql(r->Err_0),
{
    match r {
        Ok(value) => Ok(value),
        Err(error) => Err(WorkflowError::Sql(error)),
    }
}

/// A store access's result, with a failure reported as a store error of the workflow.
fn lift_database<T>(r: Result<T, DatabaseError>) -> (out: Result<T, WorkflowError>)
    ensures
        r is Ok <==> out is Ok,
        r is Ok ==> out->Ok_0 == r->Ok_0,
        r is Err ==> out->Err_0@ == WorkflowFault::Database(r->Err_0),
{
    match r {
        Ok(value) => Ok(value),
        Err(error) => Err(WorkflowError::Database(error)),
    }
}

impl Database {
    /// The lifecycle state of a meeting.
    pub fn meeting_state(&self, meeting_id: &str) -> (r: Result<MeetingState, WorkflowError>)
        ensures
            r matches Err(WorkflowError::MeetingNotFound(id)) ==> id@ == meeting_id@,
    {
        let guard = lift_database(self.connection())?;
        let params = key_params(meeting_id);
        let stored = lift_sql(query_optional_text(
            guard_connection(&guard),
            "SELECT lifecycle_state FROM meetings WHERE id = ?1",
            &params,
        ))?;
        match stored {
            Some(state) => MeetingState::parse(state.as_str()),
            None => Err(WorkflowError::MeetingNotFound(meeting_id.to_string())),
        }
    }

    /// Moves a meeting along one edge of its lifecycle, in one immediate transaction that updates the
    /// meeting and writes the audit record. A key that is already recorded answers with its recorded
    /// result when the request is the same, and is refused otherwise.
    pub fn transition_meeting(&self, request: &MeetingTransitionRequest) -> (r: Result<MeetingTransition, WorkflowError>)
        ensures
            r matches Ok(t) ==> t.meeting_id@ == request.meeting_id@ && t.state == request.next_state,
            r matches Ok(t) ==> (!t.replayed ==> spec_can_transition(request.expected_state, request.next_state)),
            r matches Err(WorkflowError::InvalidTransition { current, requested }) ==> current
                == request.expected_state && requested == request.next_state && !spec_can_transition(current, requested),
            r matches Err(WorkflowError::StateConflict { expected, actual }) ==> expected == request.expected_state,
            r matches Err(WorkflowError::IdempotencyConflict(key)) ==> key@ == request.idempotency_key@,
            r matches Err(WorkflowError::MeetingNotFound(id)) ==> id@ == request.meeting_id@,
            r matches Err(e) ==> transition_fault(e@),
    {
        let mut guard = lift_database(self.connection())?;
        let transaction = lift_sql(begin_immediate(guard_connection_mut(&mut guard)))?;
        let existing = find_transition(transaction_connection(&transaction), request.idempotency_key.as_str())?;
        if let Some(stored) = existing {
            let answer = replay_transition(request, stored);
            if answer.is_ok() {
                lift_sql(commit(transaction))?;
            }
            return answer;
        }
        let conn = transaction_connection(&transaction);
        let (stored_state, revision) = match lift_sql(find_meeting_revision(conn, request.meeting_id.as_str()))? {
            Some(found) => found,
            None => return Err(WorkflowError::MeetingNotFound(request.meeting_id.clone())),
        };
        let current = MeetingState::parse(stored_state.as_str())?;
        check_revision_room(revision, stored_state.as_str())?;
        let plan = plan_fresh_transition(request, current, revision)?;
        let updated = lift_sql(execute(
            conn,
            "UPDATE meetings
             SET lifecycle_state = ?1,
                 state_revision = ?2,
                 updated_at = strftime('%Y-%m-%dT%H:%M:%fZ', 'now')
             WHERE id = ?3 AND state_revision = ?4",
            &plan.update,
        ))?;
        check_state_updated(updated, request.expected_state, current)?;
        lift_sql(execute(
            conn,
            "INSERT INTO meeting_transitions
                (idempotency_key, meeting_id, from_state, to_state, resulting_revision)
             VALUES (?1, ?2, ?3, ?4, ?5)",
            &plan.audit,
        ))?;
        lift_sql(commit(transaction))?;
        Ok(plan.transition)
    }

    /// Moves every meeting left recording, paused or processing (by a crash) to failed, through
    /// processing where needed, with idempotency keys derived from the meeting and its revision so
    /// that a repeated recovery replays its own steps. Returns how many meetings it found.
    pub fn recover_interrupted_meetings(&self) -> (r: Result<usize, WorkflowError>)
        ensures
            r matches Err(e) ==> transition_fault(e@),
    {
        let interrupted = {
            let guard = lift_database(self.connection())?;
            lift_sql(interrupted_meetings(guard_connection(&guard)))?
        };
        let mut k: usize = 0;
        while k < interrupted.len()
            invariant
                k <= interrupted.len(),
            decreases interrupted.len() - k,
        {
            let meeting_id = &interrupted[k].0;
            let stored_state = &interrupted[k].1;
            let state = MeetingState::parse(stored_state.as_str())?;
            let path = recovery_path(state);
            let mut from = state;
            let mut revision: i64 = interrupted[k].2;
            let mut j: usize = 0;
            while j < path.len()
                invariant
                    j <= path.len(),
                decreases path.len() - j,
            {
                let next = path[j];
                let request = recovery_request(meeting_id.as_str(), from, next, revision);
                self.transition_meeting(&request)?;
                if j + 1 < path.len() {
                    revision = match revision.checked_add(1) {
                        Some(advanced) => advanced,
                        None => return Err(WorkflowError::InvalidStoredState(stored_state.clone())),
                    };
                }
                from = next;
                j = j + 1;
            }
            k = k + 1;
        }
        Ok(interrupted.len())
    }

    /// Schedules a job under its idempotency key, in one immediate transaction. A key that already
    /// names a job answers with that job, marked as replayed, when the id, meeting, kind and payload
    /// are the same, and is refused otherwise.
    pub fn schedule_job(&self, schedule: &JobSchedule) -> (r: Result<JobSnapshot, WorkflowError>)
        ensures
            r matches Ok(j) ==> j.id@ == schedule.id@,
            r matches Ok(j) ==> (j.replayed ==> j.id@ == schedule.id@ && j.meeting_id.deep_view()
                == schedule.meeting_id.deep_view() && j.job_kind@ == schedule.job_kind@),
            r matches Err(WorkflowError::IdempotencyConflict(key)) ==> key@ == schedule.idempotency_key@,
            r matches Err(WorkflowError::JobNotFound(id)) ==> id@ == schedule.id@,
    {
        let mut guard = lift_database(self.connection())?;
        let transaction = lift_sql(begin_immediate(guard_connection_mut(&mut guard)))?;
        let payload = lift_json(json_to_text(&schedule.payload))?;
        let existing = find_job_by_idempotency_key(
            transaction_connection(&transaction),
            schedule.idempotency_key.as_str(),
        )?;
        if let Some(job) = existing {
            let params = key_params(job.id.as_str());
            let stored_text = lift_sql(query_optional_text(
                transaction_connection(&transaction),
                "SELECT payload_json FROM jobs WHERE id = ?1",
                &params,
            ))?;
            let stored_text = match stored_text {
                Some(text) => text,
                None => return Err(WorkflowError::JobNotFound(schedule.id.clone())),
            };
            let stored_payload = lift_json(json_from_text(stored_text.as_str()))?;
            let payload_matches = json_values_equal(&stored_payload, &schedule.payload);
            let answer = replay_schedule(job, schedule, payload_matches);
            if answer.is_ok() {
                lift_sql(commit(transaction))?;
            }
            return answer;
        }
        let insert = schedule_insert_params(schedule, payload.as_str());
        lift_sql(execute(
            transaction_connection(&transaction),
            "INSERT INTO jobs
                (id, idempotency_key, meeting_id, job_kind, payload_json)
             VALUES (?1, ?2, ?3, ?4, ?5)",
            &insert,
        ))?;
        let job = match find_job(transaction_connection(&transaction), schedule.id.as_str())? {
            Some(job) => job,
            None => return Err(WorkflowError::JobNotFound(schedule.id.clone())),
        };
        lift_sql(commit(transaction))?;
        Ok(job)
    }

    /// Claims the next available job of a kind for a worker: the oldest queued one, or one whose
    /// running lease has expired. It becomes running under the worker's token and lease, with one more
    /// attempt. A lease that is not positive is refused before the store is touched.
    pub fn claim_next_job(&self, claim: &JobClaim<'_>) -> (r: Result<Option<JobSnapshot>, WorkflowError>)
        ensures
            (r matches Err(e) && e@ == WorkflowFault::InvalidLeaseDuration) <==> claim.lease_seconds <= 0,
            r matches Ok(Some(j)) ==> !j.replayed,
    {
        if claim.lease_seconds <= 0 {
            return Err(WorkflowError::InvalidLeaseDuration);
        }
        let mut guard = lift_database(self.connection())?;
        let transaction = lift_sql(begin_immediate(guard_connection_mut(&mut guard)))?;
        let params = key_params(claim.job_kind);
        let candidate = lift_sql(query_optional_text(
            transaction_connection(&transaction),
            "SELECT id
             FROM jobs
             WHERE job_kind = ?1
               AND available_at <= unixepoch()
               AND (
                   state = 'queued'
                   OR (state = 'running' AND lease_expires_at <= unixepoch())
               )
             ORDER BY available_at, created_at, id
             LIMIT 1",
            &params,
        ))?;
        let job_id = match candidate {
            Some(job_id) => job_id,
            None => {
                lift_sql(commit(transaction))?;
                return Ok(None);
            },
        };
        let update = claim_update_params(claim, job_id.as_str());
        lift_sql(execute(
            transaction_connection(&transaction),
            "UPDATE jobs
             SET state = 'running',
                 run_token = ?1,
                 lease_expires_at = unixepoch() + ?2,
                 attempt_count = attempt_count + 1,
                 started_at = COALESCE(started_at, strftime('%Y-%m-%dT%H:%M:%fZ', 'now')),
                 finished_at = NULL,
                 error_code = NULL,
                 error_message = NULL,
                 updated_at = strftime('%Y-%m-%dT%H:%M:%fZ', 'now')
             WHERE id = ?3",
            &update,
        ))?;
        let job = match find_job(transaction_connection(&transaction), job_id.as_str())? {
            Some(job) => job,
            None => return Err(WorkflowError::JobNotFound(job_id)),
        };
        lift_sql(commit(transaction))?;
        Ok(Some(job))
    }

    /// Records how the worker holding `run_token` finished a job. Only the current run may finish a
    /// running job; the same completion repeated by that worker answers the finished job, marked as
    /// replayed.
    pub fn complete_job(&self, job_id: &str, run_token: &str, completion: JobCompletion<'_>) -> (r: Result<JobSnapshot, WorkflowError>)
        ensures
            r matches Ok(j) ==> j.id@ == job_id@,
            r matches Ok(j) ==> (j.replayed ==> j.state == completion_target(completion)
                && j.run_token.deep_view() == Some(run_token@)),
            r matches Err(WorkflowError::StaleJobLease(id)) ==> id@ == job_id@,
            r matches Err(WorkflowError::JobNotFound(id)) ==> id@ == job_id@,
    {
        let mut guard = lift_database(self.connection())?;
        let transaction = lift_sql(begin_immediate(guard_connection_mut(&mut guard)))?;
        let existing = match find_job(transaction_connection(&transaction), job_id)? {
            Some(job) => job,
            None => return Err(WorkflowError::JobNotFound(job_id.to_string())),
        };
        let target = completion.target();
        match plan_completion(existing, job_id, run_token, target)? {
            JobStep::Replay(job) => {
                lift_sql(commit(transaction))?;
                Ok(job)
            },
            JobStep::Apply(_) => {
                let update = completion_update_params(completion, job_id, run_token);
                lift_sql(execute(
                    transaction_connection(&transaction),
                    "UPDATE jobs
                     SET state = ?1,
                         progress = CASE WHEN ?1 = 'succeeded' THEN 1.0 ELSE progress END,
                         lease_expires_at = NULL,
                         error_code = ?2,
                         error_message = ?3,
                         finished_at = strftime('%Y-%m-%dT%H:%M:%fZ', 'now'),
                         updated_at = strftime('%Y-%m-%dT%H:%M:%fZ', 'now')
                     WHERE id = ?4 AND state = 'running' AND run_token = ?5",
                    &update,
                ))?;
                let job = match find_job(transaction_connection(&transaction), job_id)? {
                    Some(job) => job,
                    None => return Err(WorkflowError::JobNotFound(job_id.to_string())),
                };
                lift_sql(commit(transaction))?;
                Ok(job)
            },
        }
    }

    /// Requeues a failed job, clearing its run and its errors; a job already queued is answered as
    /// it is, marked as replayed, and any other is refused.
    pub fn retry_job(&self, job_id: &str) -> (r: Result<JobSnapshot, WorkflowError>)
        ensures
            r matches Ok(j) ==> j.id@ == job_id@,
            r matches Ok(j) ==> (j.replayed ==> j.state == JobState::Queued),
            r matches Err(WorkflowError::StaleJobLease(id)) ==> id@ == job_id@,
            r matches Err(WorkflowError::JobNotFound(id)) ==> id@ == job_id@,
    {
        let mut guard = lift_database(self.connection())?;
        let transaction = lift_sql(begin_immediate(guard_connection_mut(&mut guard)))?;
        let existing = match find_job(transaction_connection(&transaction), job_id)? {
            Some(job) => job,
            None => return Err(WorkflowError::JobNotFound(job_id.to_string())),
        };
        match plan_retry(existing, job_id)? {
            JobStep::Replay(job) => {
                lift_sql(commit(transaction))?;
                Ok(job)
            },
            JobStep::Apply(_) => {
                let params = key_params(job_id);
                lift_sql(execute(
                    transaction_connection(&transaction),
                    "UPDATE jobs
                     SET state = 'queued',
                         progress = 0.0,
                         run_token = NULL,
                         lease_expires_at = NULL,
                         error_code = NULL,
                         error_message = NULL,
                         finished_at = NULL,
                         available_at = unixepoch(),
                         updated_at = strftime('%Y-%m-%dT%H:%M:%fZ', 'now')
                     WHERE id = ?1 AND state = 'failed'",
                    &params,
                ))?;
                let job = match find_job(transaction_connection(&transaction), job_id)? {
                    Some(job) => job,
                    None => return Err(WorkflowError::JobNotFound(job_id.to_string())),
                };
                lift_sql(commit(transaction))?;
                Ok(job)
            },
        }
    }
}

} // verus!
