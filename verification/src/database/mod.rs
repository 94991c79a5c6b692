//! The local SQLite store: schema, migrations and the connection that every operation shares.
use vstd::prelude::*;
use self::schema::{MIGRATION_INITIAL, MIGRATION_WORKFLOW_STATE};
use crate::text::{push_signed_decimal, push_str, signed_decimal};
use crate::sql::{
    sql_error_text,
    begin_immediate, busy_timeout_seconds, column_i64, commit, execute, execute_batch,
    guard_connection, lock_connection, new_lock, next_row,
    open_in_memory, open_path, pragma_update, prepare, query, transaction_connection, SqlParam,
};

pub mod evidence;
pub mod meetings;
pub mod notes;
pub mod schema;
pub mod transcripts;
pub mod workflow;

verus! {

/// The I/O error that opening a store may report, carried through unread.
#[verifier::external_type_specification]
#[verifier::external_body]
pub struct ExIoError(std::io::Error);

/// Why the store could not be opened or used.
#[derive(Debug)]
pub enum DatabaseError {
    Io(std::io::Error),
    Sql(rusqlite::Error),
    UnsupportedSchemaVersion { found: i64, supported: i64 },
    LockPoisoned,
}

/// The store, with one connection shared behind a lock.
pub struct Database {
    connection: std::sync::Mutex<rusqlite::Connection>,
}

/// Whether the store is ready, and the schema version it holds.
#[derive(Debug)]
pub struct DatabaseStatus {
    pub ready: bool,
    pub schema_version: i64,
}

/// A numbered step of the schema.
pub struct Migration {
    pub version: i64,
    pub name: &'static str,
    pub sql: &'static str,
}

/// The newest schema version that this library knows.
pub const LATEST_SCHEMA_VERSION: i64 = 2;

/// The versions of the migrations, in the order in which they apply.
pub open spec fn migration_versions() -> Seq<i64> {
    seq![1i64, 2i64]
}

/// The migrations, in order: the initial schema, then the workflow state.
pub fn migrations() -> (m: Vec<Migration>)
    ensures
        m@.map_values(|x: Migration| x.version) == migration_versions(),
{
    let mut m: Vec<Migration> = Vec::new();
    m.push(Migration { version: 1, name: "initial", sql: MIGRATION_INITIAL });
    m.push(Migration { version: 2, name: "workflow_state", sql: MIGRATION_WORKFLOW_STATE });
    assert(m@.map_values(|x: Migration| x.version) =~= migration_versions());
    m
}

/// The positions of the migrations that a store at schema version `current` still needs,
/// or the refusal of a schema newer than this library.
pub open spec fn spec_pending_migrations(current: int) -> Result<Seq<int>, (int, int)> {
    if current > LATEST_SCHEMA_VERSION {
        Err((current, LATEST_SCHEMA_VERSION as int))
    } else if current >= 2 {
        Ok(Seq::empty())
    } else if current >= 1 {
        Ok(seq![1int])
    } else {
        Ok(seq![0int, 1int])
    }
}

/// Decides which migrations to run on a store at schema version `current`.
pub fn pending_migrations(current: i64) -> (r: Result<Vec<usize>, DatabaseError>)
    ensures
        match (r, spec_pending_migrations(current as int)) {
            (Ok(v), Ok(s)) => v@.map_values(|i: usize| i as int) == s,
            (Err(DatabaseError::UnsupportedSchemaVersion { found, supported }), Err((f, s))) => found == f && supported == s,
            _ => false,
        },
{
    let all = migrations();
    assert(all@.map_values(|x: Migration| x.version).len() == 2);
    let latest = all[all.len() - 1].version;
    assert(all@.map_values(|x: Migration| x.version)[1] == all@[1].version);
    if current > latest {
        return Err(DatabaseError::UnsupportedSchemaVersion { found: current, supported: latest });
    }
    let mut pending: Vec<usize> = Vec::new();
    let mut i: usize = 0;
    while i < all.len()
        invariant
            i <= all.len(),
            all@.map_values(|x: Migration| x.version) == migration_versions(),
            pending@.map_values(|k: usize| k as int) == Seq::new(i as nat, |k: int| k).filter(|k: int| migration_versions()[k] > current),
        decreases all.len() - i,
    {
        assert(all@[i as int].version == migration_versions()[i as int]);
        if all[i].version > current {
            pending.push(i);
        }
        proof {
            let s = Seq::new((i + 1) as nat, |k: int| k);
            assert(s.drop_last() =~= Seq::new(i as nat, |k: int| k));
            reveal_with_fuel(Seq::filter, 1);
        }
        assert(pending@.map_values(|k: usize| k as int) =~= Seq::new((i + 1) as nat, |k: int| k).filter(|k: int| migration_versions()[k] > current));
        i = i + 1;
    }
    proof {
        reveal_with_fuel(Seq::filter, 3);
        assert(Seq::new(2, |k: int| k).drop_last() =~= Seq::new(1, |k: int| k));
        assert(Seq::new(1, |k: int| k).drop_last() =~= Seq::new(0, |k: int| k));
    }
    assert(pending@.map_values(|k: usize| k as int) =~= spec_pending_migrations(current as int)->Ok_0);
    Ok(pending)
}

/// Opening a store at any supported schema runs exactly the migrations it has not applied, in
/// order, ending at the newest schema; a store already at the newest schema runs none, so opening
/// it again changes nothing. A newer schema is refused with its version and the supported one.
pub proof fn lemma_migrations_reach_latest(current: int)
    ensures
        current > LATEST_SCHEMA_VERSION ==> spec_pending_migrations(current)
            == Err::<Seq<int>, (int, int)>((current, LATEST_SCHEMA_VERSION as int)),
        current <= LATEST_SCHEMA_VERSION ==> ({
            let pending = spec_pending_migrations(current)->Ok_0;
            &&& spec_pending_migrations(current) is Ok
            &&& forall|k: int| 0 <= k < pending.len() ==> 0 <= #[trigger] pending[k] < migration_versions().len()
                && migration_versions()[pending[k]] > current
            &&& forall|p: int| 0 <= p < migration_versions().len() && migration_versions()[p] > current
                ==> pending.contains(p)
            &&& forall|a: int, b: int| 0 <= a < b < pending.len() ==> #[trigger] pending[a] < #[trigger] pending[b]
            &&& (pending.len() == 0 <==> current == LATEST_SCHEMA_VERSION)
            &&& pending.len() > 0 ==> migration_versions()[pending.last()] == LATEST_SCHEMA_VERSION
        }),
        spec_pending_migrations(LATEST_SCHEMA_VERSION as int) == Ok::<Seq<int>, (int, int)>(Seq::empty()),
{
    if current <= LATEST_SCHEMA_VERSION {
        let pending = spec_pending_migrations(current)->Ok_0;
        if current < 1 {
            assert(pending[0] == 0 && pending[1] == 1);
            assert forall|p: int| 0 <= p < migration_versions().len() && migration_versions()[p] > current
                implies pending.contains(p) by {
                if p == 0 {
                    assert(pending[0] == p);
                } else {
                    assert(pending[1] == p);
                }
            }
        } else if current < 2 {
            assert(pending[0] == 1);
            assert forall|p: int| 0 <= p < migration_versions().len() && migration_versions()[p] > current
                implies pending.contains(p) by {
                assert(pending[0] == p);
            }
        }
    }
}

} // verus!

verus! {

impl From<rusqlite::Error> for DatabaseError {
    fn from(error: rusqlite::Error) -> (r: Self) {
        DatabaseError::Sql(error)
    }
}

impl vstd::std_specs::convert::FromSpecImpl<rusqlite::Error> for DatabaseError {
    open spec fn obeys_from_spec() -> bool {
        true
    }

    open spec fn from_spec(v: rusqlite::Error) -> DatabaseError {
        DatabaseError::Sql(v)
    }
}

impl From<std::io::Error> for DatabaseError {
    fn from(error: std::io::Error) -> (r: Self) {
        DatabaseError::Io(error)
    }
}

impl vstd::std_specs::convert::FromSpecImpl<std::io::Error> for DatabaseError {
    open spec fn obeys_from_spec() -> bool {
        true
    }

    open spec fn from_spec(v: std::io::Error) -> DatabaseError {
        DatabaseError::Io(v)
    }
}

impl DatabaseError {
    /// A description of the error for the user.
    pub fn message(&self) -> (r: String)
        ensures
            self matches DatabaseError::UnsupportedSchemaVersion { found, supported } ==> r@
                == "database schema version "@ + signed_decimal(found as int)
                + " is newer than supported version "@ + signed_decimal(supported as int),
            self matches DatabaseError::LockPoisoned ==> r@ == "database connection lock is poisoned"@,
            self is Io ==> "database filesystem error: "@.is_prefix_of(r@),
            self is Sql ==> "database error: "@.is_prefix_of(r@),
    {
        match self {
            DatabaseError::Io(e) => {
                let mut s = String::from_str("database filesystem error: ");
                let ghost prefix = s@;
                push_str(&mut s, io_error_text(e).as_str());
                assert(prefix =~= s@.subrange(0, prefix.len() as int));
                s
            },
            DatabaseError::Sql(e) => {
                let mut s = String::from_str("database error: ");
                let ghost prefix = s@;
                push_str(&mut s, sql_error_text(e).as_str());
                assert(prefix =~= s@.subrange(0, prefix.len() as int));
                s
            },
            DatabaseError::UnsupportedSchemaVersion { found, supported } => {
                let mut s = String::from_str("database schema version ");
                push_signed_decimal(&mut s, *found);
                push_str(&mut s, " is newer than supported version ");
                push_signed_decimal(&mut s, *supported);
                s
            },
            DatabaseError::LockPoisoned => String::from_str("database connection lock is poisoned"),
        }
    }
}

/// Calls `Display` of `std::io::Error`.
#[verifier::external_body]
fn io_error_text(error: &std::io::Error) -> (r: String) {
    error.to_string()
}

impl Database {
    /// Opens the store in the file at `path`, configures the connection and brings the schema up to date.
    /// The directory that holds the file must exist.
    pub fn open(path: &str) -> (r: Result<Database, DatabaseError>)
        ensures
            r matches Err(DatabaseError::UnsupportedSchemaVersion { found, supported }) ==> found > supported
                && supported == LATEST_SCHEMA_VERSION,
            r matches Err(e) ==> e is Sql || e is UnsupportedSchemaVersion,
    {
        let connection = sql_failure(open_path(path))?;
        Database::from_connection(connection)
    }

    /// Opens a private store held in memory, with the current schema.
    pub fn open_in_memory() -> (r: Result<Database, DatabaseError>)
        ensures
            r matches Err(DatabaseError::UnsupportedSchemaVersion { found, supported }) ==> found > supported
                && supported == LATEST_SCHEMA_VERSION,
            r matches Err(e) ==> e is Sql || e is UnsupportedSchemaVersion,
    {
        let connection = sql_failure(open_in_memory())?;
        Database::from_connection(connection)
    }

    /// Configures the connection, brings its schema up to date, and puts it behind the lock; a store
    /// whose schema is newer than this library is refused.
    fn from_connection(connection: rusqlite::Connection) -> (r: Result<Database, DatabaseError>)
        ensures
            r matches Err(DatabaseError::UnsupportedSchemaVersion { found, supported }) ==> found > supported
                && supported == LATEST_SCHEMA_VERSION,
            r matches Err(e) ==> e is Sql || e is UnsupportedSchemaVersion,
    {
        let mut connection = connection;
        sql_failure(configure_connection(&connection))?;
        apply_migrations(&mut connection)?;
        Ok(Database { connection: new_lock(connection) })
    }

    /// The shared connection, locked for this caller.
    pub fn connection(&self) -> (r: Result<std::sync::MutexGuard<'_, rusqlite::Connection>, DatabaseError>)
        ensures
            r matches Err(e) ==> e is LockPoisoned,
    {
        match lock_connection(&self.connection) {
            Some(guard) => Ok(guard),
            None => Err(DatabaseError::LockPoisoned),
        }
    }

    /// Reports that the store is ready, with its schema version.
    pub fn status(&self) -> (r: Result<DatabaseStatus, DatabaseError>)
        ensures
            r matches Ok(s) ==> s.ready,
    {
        let guard = self.connection()?;
        let schema_version = current_schema_version(guard_connection(&guard))?;
        Ok(DatabaseStatus { ready: true, schema_version })
    }
}

/// Foreign keys on, write-ahead logging, normal synchronisation and a five-second busy timeout.
pub fn configure_connection(connection: &rusqlite::Connection) -> (r: Result<(), rusqlite::Error>) {
    pragma_update(connection, "foreign_keys", "ON")?;
    pragma_update(connection, "journal_mode", "WAL")?;
    pragma_update(connection, "synchronous", "NORMAL")?;
    busy_timeout_seconds(connection, 5)?;
    Ok(())
}

/// A database call's result, with a failure reported as a store error.
pub(crate) fn sql_failure<T>(r: Result<T, rusqlite::Error>) -> (out: Result<T, DatabaseError>)
    ensures
        r is Ok <==> out is Ok,
        r is Ok ==> out->Ok_0 == r->Ok_0,
        out matches Err(e) ==> e is Sql,
{
    match r {
        Ok(value) => Ok(value),
        Err(error) => Err(DatabaseError::Sql(error)),
    }
}

/// Runs, each in its own immediate transaction, the migrations that the store has not applied,
/// recording each one; refuses a store whose schema is newer than this library.
pub fn apply_migrations(connection: &mut rusqlite::Connection) -> (r: Result<(), DatabaseError>)
    ensures
        r matches Err(DatabaseError::UnsupportedSchemaVersion { found, supported }) ==> found > supported
            && supported == LATEST_SCHEMA_VERSION,
        r matches Err(e) ==> e is Sql || e is UnsupportedSchemaVersion,
{
    sql_failure(execute_batch(
        connection,
        "CREATE TABLE IF NOT EXISTS schema_migrations (
            version INTEGER PRIMARY KEY CHECK (version > 0),
            name TEXT NOT NULL UNIQUE,
            applied_at TEXT NOT NULL DEFAULT (strftime('%Y-%m-%dT%H:%M:%fZ', 'now'))
        );",
    ))?;
    let current = sql_failure(current_schema_version(connection))?;
    let pending = match pending_migrations(current) {
        Ok(pending) => pending,
        Err(error) => return Err(error),
    };
    let all = migrations();
    proof {
        let s = spec_pending_migrations(current as int)->Ok_0;
        assert(current <= 2);
        assert(forall|q: int| 0 <= q < s.len() ==> 0 <= #[trigger] s[q] < 2);
        assert forall|q: int| 0 <= q < pending.len() implies pending[q] < 2 by {
            assert(pending@.map_values(|i: usize| i as int)[q] == s[q]);
        }
    }
    let mut k: usize = 0;
    while k < pending.len()
        invariant
            k <= pending.len(),
            all@.map_values(|x: Migration| x.version) == migration_versions(),
            forall|q: int| 0 <= q < pending.len() ==> pending[q] < 2,
        decreases pending.len() - k,
    {
        let index = pending[k];
        assert(all@.map_values(|x: Migration| x.version).len() == 2);
        let migration = &all[index];
        let transaction = sql_failure(begin_immediate(connection))?;
        sql_failure(execute_batch(transaction_connection(&transaction), migration.sql))?;
        let params: [SqlParam; 2] = [SqlParam::Integer(migration.version), SqlParam::Text(migration.name.to_owned())];
        sql_failure(execute(
            transaction_connection(&transaction),
            "INSERT INTO schema_migrations (version, name) VALUES (?1, ?2)",
            &params,
        ))?;
        sql_failure(commit(transaction))?;
        k = k + 1;
    }
    Ok(())
}

/// The highest applied migration, or zero.
pub fn current_schema_version(connection: &rusqlite::Connection) -> (r: Result<i64, rusqlite::Error>) {
    let mut statement = prepare(connection, "SELECT COALESCE(MAX(version), 0) FROM schema_migrations")?;
    let mut rows = query(&mut statement, &[])?;
    match next_row(&mut rows)? {
        Some(row) => column_i64(row, 0),
        None => Ok(0),
    }
}

} // verus!
