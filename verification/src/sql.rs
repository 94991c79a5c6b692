//! The SQLite calls that the library makes, and the plain values that cross them.
use vstd::prelude::*;

verus! {

/// An open SQLite connection.
#[verifier::external_type_specification]
#[verifier::external_body]
pub struct ExConnection(rusqlite::Connection);

/// A transaction on a connection.
#[verifier::external_type_specification]
#[verifier::external_body]
pub struct ExTransaction<'conn>(rusqlite::Transaction<'conn>);

/// A prepared statement.
#[verifier::external_type_specification]
#[verifier::external_body]
pub struct ExStatement<'conn>(rusqlite::Statement<'conn>);

/// The rows a query yields, read one at a time.
#[verifier::external_type_specification]
#[verifier::external_body]
pub struct ExRows<'stmt>(rusqlite::Rows<'stmt>);

/// One row of a query.
#[verifier::external_type_specification]
#[verifier::external_body]
pub struct ExRow<'stmt>(rusqlite::Row<'stmt>);

/// A SQLite error, carried through unread.
#[verifier::external_type_specification]
#[verifier::external_body]
pub struct ExSqlError(rusqlite::Error);

/// A lock around a shared value.
#[verifier::external_type_specification]
#[verifier::external_body]
#[verifier::reject_recursive_types(T)]
pub struct ExMutex<T: ?Sized>(std::sync::Mutex<T>);

/// Access to a locked value while the lock is held.
#[verifier::external_type_specification]
#[verifier::external_body]
#[verifier::reject_recursive_types(T)]
pub struct ExMutexGuard<'a, T: ?Sized + 'a>(std::sync::MutexGuard<'a, T>);

/// A value bound to a statement parameter.
pub enum SqlParam {
    Null,
    Integer(i64),
    Text(String),
}

/// A statement parameter as a plain value.
pub enum ParamView {
    Null,
    Integer(int),
    Text(Seq<char>),
}

impl View for SqlParam {
    type V = ParamView;

    open spec fn view(&self) -> ParamView {
        match self {
            SqlParam::Null => ParamView::Null,
            SqlParam::Integer(i) => ParamView::Integer(*i as int),
            SqlParam::Text(s) => ParamView::Text(s@),
        }
    }
}

/// The parameters of a statement as plain values, in order.
pub open spec fn params_view(params: Seq<SqlParam>) -> Seq<ParamView> {
    params.map_values(|p: SqlParam| p@)
}

/// An optional text as a plain parameter: NULL when absent.
pub open spec fn opt_text_view(value: Option<Seq<char>>) -> ParamView {
    match value {
        Some(text) => ParamView::Text(text),
        None => ParamView::Null,
    }
}

/// A text as a statement parameter.
pub fn text_param(value: &str) -> (r: SqlParam)
    ensures
        r@ == ParamView::Text(value@),
{
    SqlParam::Text(value.to_string())
}

/// A single text parameter, for the statements keyed by one id.
pub fn key_params(value: &str) -> (r: [SqlParam; 1])
    ensures
        params_view(r@) == seq![ParamView::Text(value@)],
{
    let r: [SqlParam; 1] = [text_param(value)];
    assert(params_view(r@) =~= seq![ParamView::Text(value@)]);
    r
}

/// Calls `Connection::open`, which opens or creates the database file at `path`.
#[verifier::external_body]
pub(crate) fn open_path(path: &str) -> (r: Result<rusqlite::Connection, rusqlite::Error>) {
    rusqlite::Connection::open(path)
}

/// Calls `Connection::open_in_memory`, which opens a private database held in memory.
#[verifier::external_body]
pub(crate) fn open_in_memory() -> (r: Result<rusqlite::Connection, rusqlite::Error>) {
    rusqlite::Connection::open_in_memory()
}

/// Calls `Connection::pragma_update` on the main schema.
#[verifier::external_body]
pub(crate) fn pragma_update(conn: &rusqlite::Connection, name: &str, value: &str) -> (r: Result<(), rusqlite::Error>) {
    conn.pragma_update(None, name, value)
}

/// Calls `Connection::busy_timeout` with a whole number of seconds. The timeout is kept in
/// milliseconds as an `i32`, and a longer one panics, so `seconds` stays within that range.
#[verifier::external_body]
pub(crate) fn busy_timeout_seconds(conn: &rusqlite::Connection, seconds: u64) -> (r: Result<(), rusqlite::Error>)
    requires
        seconds <= 2147483,
{
    conn.busy_timeout(std::time::Duration::from_secs(seconds))
}

/// Calls `Connection::execute_batch`, which runs several statements.
#[verifier::external_body]
pub(crate) fn execute_batch(conn: &rusqlite::Connection, sql: &str) -> (r: Result<(), rusqlite::Error>) {
    conn.execute_batch(sql)
}

/// Calls `Connection::execute` with the parameters in order; the result counts changed rows.
#[verifier::external_body]
pub(crate) fn execute(conn: &rusqlite::Connection, sql: &str, params: &[SqlParam]) -> (r: Result<usize, rusqlite::Error>) {
    let values = params.iter().map(|p| match p {
        SqlParam::Null => rusqlite::types::Value::Null,
        SqlParam::Integer(i) => rusqlite::types::Value::Integer(*i),
        SqlParam::Text(s) => rusqlite::types::Value::Text(s.clone()),
    });
    conn.execute(sql, rusqlite::params_from_iter(values))
}

/// Calls `Connection::prepare`.
#[verifier::external_body]
pub(crate) fn prepare<'conn>(conn: &'conn rusqlite::Connection, sql: &str) -> (r: Result<rusqlite::Statement<'conn>, rusqlite::Error>) {
    conn.prepare(sql)
}

/// Calls `Statement::query` with the parameters in order.
#[verifier::external_body]
pub(crate) fn query<'stmt>(stmt: &'stmt mut rusqlite::Statement<'_>, params: &[SqlParam]) -> (r: Result<rusqlite::Rows<'stmt>, rusqlite::Error>) {
    let values = params.iter().map(|p| match p {
        SqlParam::Null => rusqlite::types::Value::Null,
        SqlParam::Integer(i) => rusqlite::types::Value::Integer(*i),
        SqlParam::Text(s) => rusqlite::types::Value::Text(s.clone()),
    });
    stmt.query(rusqlite::params_from_iter(values))
}

/// Calls `Rows::next`.
#[verifier::external_body]
pub(crate) fn next_row<'a, 'stmt>(rows: &'a mut rusqlite::Rows<'stmt>) -> (r: Result<Option<&'a rusqlite::Row<'stmt>>, rusqlite::Error>) {
    rows.next()
}

/// Calls `Row::get` for a text column.
#[verifier::external_body]
pub(crate) fn column_text(row: &rusqlite::Row<'_>, index: usize) -> (r: Result<String, rusqlite::Error>) {
    row.get(index)
}

/// Calls `Row::get` for a text column that may be NULL.
#[verifier::external_body]
pub(crate) fn column_opt_text(row: &rusqlite::Row<'_>, index: usize) -> (r: Result<Option<String>, rusqlite::Error>) {
    row.get(index)
}

/// Calls `Row::get` for an integer column.
#[verifier::external_body]
pub(crate) fn column_i64(row: &rusqlite::Row<'_>, index: usize) -> (r: Result<i64, rusqlite::Error>) {
    row.get(index)
}

/// Calls `Row::get` for an integer column that may be NULL.
#[verifier::external_body]
pub(crate) fn column_opt_i64(row: &rusqlite::Row<'_>, index: usize) -> (r: Result<Option<i64>, rusqlite::Error>) {
    row.get(index)
}

/// Calls `Row::get` for a boolean column.
#[verifier::external_body]
pub(crate) fn column_bool(row: &rusqlite::Row<'_>, index: usize) -> (r: Result<bool, rusqlite::Error>) {
    row.get(index)
}

/// Calls `Connection::transaction_with_behavior` with an immediate write lock.
#[verifier::external_body]
pub(crate) fn begin_immediate(conn: &mut rusqlite::Connection) -> (r: Result<rusqlite::Transaction<'_>, rusqlite::Error>) {
    conn.transaction_with_behavior(rusqlite::TransactionBehavior::Immediate)
}

/// The connection that runs a transaction's statements (`Deref` of `Transaction`).
#[verifier::external_body]
pub(crate) fn transaction_connection<'a>(tx: &'a rusqlite::Transaction<'_>) -> (r: &'a rusqlite::Connection) {
    tx
}

/// Calls `Transaction::commit`.
#[verifier::external_body]
pub(crate) fn commit(tx: rusqlite::Transaction<'_>) -> (r: Result<(), rusqlite::Error>) {
    tx.commit()
}

/// Calls `Mutex::new`.
#[verifier::external_body]
pub(crate) fn new_lock<T>(value: T) -> (r: std::sync::Mutex<T>) {
    std::sync::Mutex::new(value)
}

/// Calls `Mutex::lock`; `None` when the lock is poisoned.
#[verifier::external_body]
pub(crate) fn lock_connection(m: &std::sync::Mutex<rusqlite::Connection>) -> (r: Option<std::sync::MutexGuard<'_, rusqlite::Connection>>) {
    m.lock().ok()
}

/// The locked connection (`Deref` of `MutexGuard`).
#[verifier::external_body]
pub(crate) fn guard_connection<'a>(g: &'a std::sync::MutexGuard<'_, rusqlite::Connection>) -> (r: &'a rusqlite::Connection) {
    g
}

/// The locked connection, for writing (`DerefMut` of `MutexGuard`).
#[verifier::external_body]
pub(crate) fn guard_connection_mut<'a>(g: &'a mut std::sync::MutexGuard<'_, rusqlite::Connection>) -> (r: &'a mut rusqlite::Connection) {
    g
}

/// The first text column of the first row that `sql` selects with `params`, if any.
pub fn query_optional_text(conn: &rusqlite::Connection, sql: &str, params: &[SqlParam]) -> (r: Result<Option<String>, rusqlite::Error>) {
    let mut statement = prepare(conn, sql)?;
    let mut rows = query(&mut statement, params)?;
    match next_row(&mut rows)? {
        Some(row) => Ok(Some(column_text(row, 0)?)),
        None => Ok(None),
    }
}

/// Two text parameters, in order.
pub fn text_pair_params(first: &str, second: &str) -> (r: [SqlParam; 2])
    ensures
        params_view(r@) == seq![ParamView::Text(first@), ParamView::Text(second@)],
{
    let r: [SqlParam; 2] = [text_param(first), text_param(second)];
    assert(params_view(r@) =~= seq![ParamView::Text(first@), ParamView::Text(second@)]);
    r
}

/// Three text parameters, in order.
pub fn text_triple_params(first: &str, second: &str, third: &str) -> (r: [SqlParam; 3])
    ensures
        params_view(r@) == seq![ParamView::Text(first@), ParamView::Text(second@), ParamView::Text(third@)],
{
    let r: [SqlParam; 3] = [text_param(first), text_param(second), text_param(third)];
    assert(params_view(r@) =~= seq![ParamView::Text(first@), ParamView::Text(second@), ParamView::Text(third@)]);
    r
}

/// An optional text as a statement parameter: NULL when absent.
pub fn optional_text_param(value: &Option<String>) -> (r: SqlParam)
    ensures
        value is None <==> r is Null,
        value matches Some(text) ==> r matches SqlParam::Text(bound) && bound@ == text@,
        r@ == opt_text_view(value.deep_view()),
{
    match value {
        Some(text) => SqlParam::Text(text.clone()),
        None => SqlParam::Null,
    }
}

/// Calls `Display` of `rusqlite::Error`.
#[verifier::external_body]
pub(crate) fn sql_error_text(error: &rusqlite::Error) -> (r: String) {
    error.to_string()
}

} // verus!
