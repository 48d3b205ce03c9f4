//! The database connection and the calls made on it.
//!
//! Every function of this module hands one call on to the database engine
//! or turns a value of the engine into a value of this library. What the
//! engine returns depends on the file and on what other processes did to
//! it, so the contracts claim nothing of any result: whoever calls has to
//! be right for every outcome.

use vstd::prelude::*;

verus! {

#[verifier::external_type_specification]
#[verifier::external_body]
pub struct ExConnection(rusqlite::Connection);

#[verifier::external_type_specification]
#[verifier::external_body]
pub struct ExError(rusqlite::Error);

#[verifier::external_type_specification]
#[verifier::external_body]
pub struct ExValue(rusqlite::types::Value);

/// A value that goes into a statement or comes out of a row.
#[derive(Clone, Debug, PartialEq, Eq)]
pub enum SqlValue {
    Null,
    Integer(i64),
    Text(String),
    /// A value of a type that this library does not read.
    Other,
}

/// The variants of `rusqlite::types::Value`: the engine's value for `v`,
/// variant for variant; `Other` goes in as `NULL`. Nothing is claimed of
/// the result, which verified code only hands on.
#[verifier::external_body]
pub(crate) fn to_engine(v: &SqlValue) -> (r: rusqlite::types::Value) {
    match v {
        SqlValue::Null => rusqlite::types::Value::Null,
        SqlValue::Integer(i) => rusqlite::types::Value::Integer(*i),
        SqlValue::Text(s) => rusqlite::types::Value::Text(s.clone()),
        SqlValue::Other => rusqlite::types::Value::Null,
    }
}

/// The variants of `rusqlite::types::Value`: the engine's value `v` as a
/// value of this library, variant for variant; reals and blobs come out as
/// `Other`. Nothing is claimed of the result.
#[verifier::external_body]
pub(crate) fn from_engine(v: &rusqlite::types::Value) -> (r: SqlValue) {
    match v {
        rusqlite::types::Value::Null => SqlValue::Null,
        rusqlite::types::Value::Integer(i) => SqlValue::Integer(*i),
        rusqlite::types::Value::Text(s) => SqlValue::Text(s.clone()),
        rusqlite::types::Value::Real(_) => SqlValue::Other,
        rusqlite::types::Value::Blob(_) => SqlValue::Other,
    }
}

/// `Display` of `rusqlite::Error`: the engine's message for `e`. Nothing is
/// claimed of the text.
#[verifier::external_body]
pub(crate) fn error_text(e: &rusqlite::Error) -> (r: String) {
    e.to_string()
}

/// `Connection::open`: opens the file at `path`, which is created if it is
/// not there. Nothing is claimed of the outcome.
#[verifier::external_body]
pub(crate) fn open(path: &str) -> (r: Result<rusqlite::Connection, rusqlite::Error>) {
    rusqlite::Connection::open(path)
}

/// `Connection::busy_timeout`: bounds the wait for a lock to `ms`
/// milliseconds. The call panics on a time of more than `i32::MAX`
/// milliseconds, which the precondition keeps out. Nothing is claimed of
/// the outcome.
#[verifier::external_body]
pub(crate) fn busy_timeout(conn: &rusqlite::Connection, ms: u32) -> (r: Result<
    (),
    rusqlite::Error,
>)
    requires
        ms <= i32::MAX,
{
    conn.busy_timeout(std::time::Duration::from_millis(ms as u64))
}

/// `Connection::execute_batch`: runs the statements of `sql` in order.
/// Nothing is claimed of the outcome.
#[verifier::external_body]
pub(crate) fn execute_batch(conn: &rusqlite::Connection, sql: &str) -> (r: Result<
    (),
    rusqlite::Error,
>) {
    conn.execute_batch(sql)
}

/// `Connection::execute`: runs one statement with its parameters and
/// returns the number of rows that it changed. Nothing is claimed of the
/// outcome.
#[verifier::external_body]
pub(crate) fn execute(
    conn: &rusqlite::Connection,
    sql: &str,
    params: &Vec<rusqlite::types::Value>,
) -> (r: Result<usize, rusqlite::Error>) {
    conn.execute(sql, rusqlite::params_from_iter(params.iter()))
}

/// `Connection::prepare`, `Statement::query_map` and `Row::get`: runs one
/// query with its parameters and returns, of every row, the first `width`
/// columns. Nothing is claimed of the outcome, not even how long a row is.
#[verifier::external_body]
pub(crate) fn query(
    conn: &rusqlite::Connection,
    sql: &str,
    params: &Vec<rusqlite::types::Value>,
    width: usize,
) -> (r: Result<Vec<Vec<rusqlite::types::Value>>, rusqlite::Error>) {
    let mut stmt = conn.prepare(sql)?;
    let rows = stmt.query_map(
        rusqlite::params_from_iter(params.iter()),
        |row| (0..width).map(|i| row.get(i)).collect(),
    )?;
    rows.collect()
}

/// `Connection::prepare`: compiles `sql` against the schema that the file
/// has now, and drops the statement. Nothing is claimed of the outcome.
#[verifier::external_body]
pub(crate) fn prepare(conn: &rusqlite::Connection, sql: &str) -> (r: Result<(), rusqlite::Error>) {
    conn.prepare(sql).map(|_| ())
}

/// `Connection::pragma_query_value`: the value of the pragma `name`, read
/// as a whole number. Nothing is claimed of the outcome.
#[verifier::external_body]
pub(crate) fn pragma_value(conn: &rusqlite::Connection, name: &str) -> (r: Result<
    i32,
    rusqlite::Error,
>) {
    conn.pragma_query_value(None, name, |row| row.get(0))
}

/// `Connection::pragma_update`: sets the pragma `name` to `value`. Nothing
/// is claimed of the outcome.
#[verifier::external_body]
pub(crate) fn pragma_update(conn: &rusqlite::Connection, name: &str, value: i32) -> (r: Result<
    (),
    rusqlite::Error,
>) {
    conn.pragma_update(None, name, value)
}

} // verus!
