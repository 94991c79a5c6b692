//! The stored draft of a meeting's notes, with its approval and whether the transcript changed since.
use vstd::prelude::*;
use super::{sql_failure, Database, DatabaseError};
use crate::sql::{column_bool, column_text, execute, guard_connection, key_params, next_row, params_view, prepare, query, text_param, ParamView, SqlParam};

verus! {

/// A meeting's notes as stored: their serialized form, whether they were approved, and whether a
/// transcript correction made them stale.
#[derive(Debug)]
pub struct StoredMeetingNotes {
    pub payload_json: String,
    pub approved: bool,
    pub stale: bool,
}

/// The stored notes of a meeting, if any.
fn find_notes(conn: &rusqlite::Connection, meeting_id: &str) -> (r: Result<Option<StoredMeetingNotes>, rusqlite::Error>) {
    let mut statement = prepare(
        conn,
        "SELECT payload_json, approved, stale FROM meeting_notes WHERE meeting_id = ?1",
    )?;
    let params = key_params(meeting_id);
    let mut rows = query(&mut statement, &params)?;
    match next_row(&mut rows)? {
        Some(row) => Ok(Some(StoredMeetingNotes {
            payload_json: column_text(row, 0)?,
            approved: column_bool(row, 1)?,
            stale: column_bool(row, 2)?,
        })),
        None => Ok(None),
    }
}

/// A flag as the store keeps it: one for true, zero for false.
pub fn flag_param(value: bool) -> (r: SqlParam)
    ensures
        r == SqlParam::Integer(if value { 1 } else { 0 }),
{
    if value {
        SqlParam::Integer(1)
    } else {
        SqlParam::Integer(0)
    }
}

/// The row a meeting's notes are stored as: the meeting, the serialized notes, and the two flags.
pub open spec fn spec_notes_row(meeting_id: Seq<char>, payload_json: Seq<char>, approved: bool, stale: bool) -> Seq<ParamView> {
    seq![
        ParamView::Text(meeting_id),
        ParamView::Text(payload_json),
        ParamView::Integer(if approved { 1 } else { 0 }),
        ParamView::Integer(if stale { 1 } else { 0 }),
    ]
}

/// The parameters of the write of a meeting's notes (see `spec_notes_row`).
pub fn notes_params(meeting_id: &str, payload_json: &str, approved: bool, stale: bool) -> (r: [SqlParam; 4])
    ensures
        params_view(r@) == spec_notes_row(meeting_id@, payload_json@, approved, stale),
{
    let r: [SqlParam; 4] = [text_param(meeting_id), text_param(payload_json), flag_param(approved), flag_param(stale)];
    assert(params_view(r@) =~= spec_notes_row(meeting_id@, payload_json@, approved, stale));
    r
}

impl Database {
    /// The stored notes of a meeting, if any.
    pub fn load_meeting_notes(&self, meeting_id: &str) -> (r: Result<Option<StoredMeetingNotes>, DatabaseError>)
        ensures
            r matches Err(e) ==> e is Sql || e is LockPoisoned,
    {
        let guard = self.connection()?;
        sql_failure(find_notes(guard_connection(&guard), meeting_id))
    }

    /// Stores a meeting's notes, replacing those stored before, with their approval and staleness.
    pub fn store_meeting_notes(&self, meeting_id: &str, payload_json: &str, approved: bool, stale: bool) -> (r: Result<(), DatabaseError>)
        ensures
            r matches Err(e) ==> e is Sql || e is LockPoisoned,
    {
        let guard = self.connection()?;
        let params = notes_params(meeting_id, payload_json, approved, stale);
        sql_failure(execute(
            guard_connection(&guard),
            "INSERT INTO meeting_notes (meeting_id, payload_json, approved, stale)
             VALUES (?1, ?2, ?3, ?4)
             ON CONFLICT(meeting_id) DO UPDATE SET
                payload_json = excluded.payload_json,
                approved = excluded.approved,
                stale = excluded.stale,
                updated_at = strftime('%Y-%m-%dT%H:%M:%fZ', 'now')",
            &params,
        ))?;
        Ok(())
    }
}

} // verus!
