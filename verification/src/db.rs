//! The store on disk: opening and initializing the database file, loading
//! a store from it, writing a store back, and answering requests against
//! it.
//!
//! What the database engine returns depends on the file and on the other
//! processes that work on it. The contracts here say what holds whatever it
//! returned; the decisions that follow a result are functions of their own
//! with exact contracts.

use crate::bridge::{
    apply, check_early, check_operation_early, early_error, internal_error, operation_early_error,
    parse_request, understood, BridgeError, Operation, OperationView, Payload, Reply, StoreRequest,
    StoreRequestView,
};
use crate::changes::{Change, ChangeView};
use crate::clock::{now_ms, now_nanos};
use crate::commands::{
    early_outcome, is_late_error, lemma_late_errors, settle_early, ChangeError, Command,
};
use crate::ident::{id_text, next_count, safe_id, IdSource};
use crate::model::{folder_views, note_views, opt_view, ErrorCode, StoreError};
use crate::rows::{
    all_folders, all_hits, all_notes, decode_folders, decode_hits, decode_notes, folder_params,
    folder_row, folders_of_rows, hit_row, note_params, note_row, notes_of_rows, row_view,
    SqlValueView,
};
use crate::schema::{found_current, is_found_current, plan_migration, Action, Probe, Schema};
use crate::search::{clamp_limit, clamped, hit_of, picks_newest, NoteHit};
use crate::sqlite::{
    busy_timeout, error_text, execute, execute_batch, from_engine, open, pragma_update,
    pragma_value, prepare, query, to_engine, SqlValue,
};
use crate::store::{has_note, Store};
use crate::text::{like_pattern_of, trim, trimmed};
use crate::validate::{is_gathered, Gathered};
use vstd::prelude::*;

verus! {

/// How long a connection waits for a lock, in milliseconds.
pub const BUSY_TIMEOUT_MS: u32 = 2000;

/// The pragma that holds the migration counter of a file.
pub const VERSION_PRAGMA: &'static str = "user_version";

/// The name of the database file inside the data directory.
pub const DB_FILE_NAME: &'static str = "anote.db";

/// The settings of every connection: write-ahead logging, a balanced level
/// of synchronization, a bounded cache, and referential integrity.
pub const CONNECTION_SETTINGS: &'static str =
    "PRAGMA journal_mode = WAL; PRAGMA synchronous = NORMAL; PRAGMA cache_size = -2000; PRAGMA foreign_keys = ON;";

/// The base tables, the index of notes by folder, and the full-text index
/// over title and body with the triggers that keep it in step with every
/// insert, delete and update of a note.
pub const BASE_SCHEMA: &'static str =
    "CREATE TABLE IF NOT EXISTS folders (id TEXT PRIMARY KEY, name TEXT NOT NULL, created_at INTEGER NOT NULL); CREATE TABLE IF NOT EXISTS notes (id TEXT PRIMARY KEY, folder_id TEXT NOT NULL REFERENCES folders(id) ON DELETE CASCADE, title TEXT NOT NULL DEFAULT '', body TEXT NOT NULL DEFAULT '', created_at INTEGER NOT NULL, updated_at INTEGER NOT NULL); CREATE INDEX IF NOT EXISTS idx_notes_folder ON notes(folder_id); CREATE VIRTUAL TABLE IF NOT EXISTS notes_fts USING fts5(title, body, content=notes, content_rowid=rowid); CREATE TRIGGER IF NOT EXISTS notes_ai AFTER INSERT ON notes BEGIN INSERT INTO notes_fts(rowid, title, body) VALUES (new.rowid, new.title, new.body); END; CREATE TRIGGER IF NOT EXISTS notes_ad AFTER DELETE ON notes BEGIN INSERT INTO notes_fts(notes_fts, rowid, title, body) VALUES('delete', old.rowid, old.title, old.body); END; CREATE TRIGGER IF NOT EXISTS notes_au AFTER UPDATE ON notes BEGIN INSERT INTO notes_fts(notes_fts, rowid, title, body) VALUES('delete', old.rowid, old.title, old.body); INSERT INTO notes_fts(rowid, title, body) VALUES (new.rowid, new.title, new.body); END;";

/// All folders, oldest first.
pub const SELECT_FOLDERS: &'static str =
    "SELECT id, name, created_at, COALESCE(updated_at, created_at), parent_id FROM folders ORDER BY created_at, rowid";

/// All notes, in the order in which they were filed.
pub const SELECT_NOTES: &'static str =
    "SELECT id, folder_id, title, body, created_at, updated_at, pinned, sort_order FROM notes ORDER BY rowid";

/// Writes a folder, new or changed.
pub const UPSERT_FOLDER: &'static str =
    "INSERT INTO folders (id, name, created_at, updated_at, parent_id) VALUES (?1, ?2, ?3, ?4, ?5) ON CONFLICT(id) DO UPDATE SET name = excluded.name, created_at = excluded.created_at, updated_at = excluded.updated_at, parent_id = excluded.parent_id";

/// Writes a note, new or changed.
pub const UPSERT_NOTE: &'static str =
    "INSERT INTO notes (id, folder_id, title, body, created_at, updated_at, pinned, sort_order) VALUES (?1, ?2, ?3, ?4, ?5, ?6, ?7, ?8) ON CONFLICT(id) DO UPDATE SET folder_id = excluded.folder_id, title = excluded.title, body = excluded.body, created_at = excluded.created_at, updated_at = excluded.updated_at, pinned = excluded.pinned, sort_order = excluded.sort_order";

/// Deletes a folder.
pub const DELETE_FOLDER: &'static str = "DELETE FROM folders WHERE id = ?1";

/// Deletes a note.
pub const DELETE_NOTE: &'static str = "DELETE FROM notes WHERE id = ?1";

/// The notes that match a full-text expression, best match first.
pub const SEARCH_RANKED: &'static str =
    "SELECT n.id, n.folder_id, n.title, substr(n.body, 1, 200), n.updated_at, COALESCE(f.name, '') FROM notes_fts nf JOIN notes n ON n.rowid = nf.rowid LEFT JOIN folders f ON f.id = n.folder_id WHERE notes_fts MATCH ?1 ORDER BY rank LIMIT ?2";

/// The notes whose title or body matches a substring pattern, newest first.
pub const SEARCH_SUBSTRING: &'static str =
    "SELECT n.id, n.folder_id, n.title, substr(n.body, 1, 200), n.updated_at, COALESCE(f.name, '') FROM notes n LEFT JOIN folders f ON f.id = n.folder_id WHERE n.title LIKE ?1 ESCAPE '\\' OR n.body LIKE ?1 ESCAPE '\\' ORDER BY n.updated_at DESC LIMIT ?2";

/// `dir` and `name` as one path: a slash comes between them unless `dir`
/// is empty or ends with one.
pub open spec fn joined(dir: Seq<char>, name: Seq<char>) -> Seq<char> {
    if dir.len() == 0 {
        name
    } else if dir.last() == '/' {
        dir + name
    } else {
        dir + seq!['/'] + name
    }
}

/// The path of the database file inside the data directory `data_dir`.
/// Every process works on this one file.
pub fn canonical_db_path(data_dir: &str) -> (r: String)
    ensures
        r@ == joined(data_dir@, DB_FILE_NAME@),
{
    let n = data_dir.unicode_len();
    let mut out = data_dir.to_owned();
    if n > 0 && data_dir.get_char(n - 1) != '/' {
        out.append("/");
    }
    out.append(DB_FILE_NAME);
    proof {
        reveal_strlit("/");
        assert("/"@ =~= seq!['/']);
        assert(out@ =~= joined(data_dir@, DB_FILE_NAME@));
    }
    out
}

/// The engine's words in place of its error.
fn worded<T>(r: Result<T, rusqlite::Error>) -> (out: Result<T, String>)
    ensures
        r is Ok == out is Ok,
        r matches Ok(v) ==> out == Ok::<T, String>(v),
{
    match r {
        Ok(v) => Ok(v),
        Err(e) => Err(error_text(&e)),
    }
}

/// Runs the statements of `sql` in order.
fn batch(conn: &rusqlite::Connection, sql: &str) -> (r: Result<(), String>) {
    worded(execute_batch(conn, sql))
}

/// The engine's values for the parameters, one for one and in their order.
fn engine_values(params: &Vec<SqlValue>) -> (given: Vec<rusqlite::types::Value>)
    ensures
        given.len() == params.len(),
{
    let mut given: Vec<rusqlite::types::Value> = Vec::new();
    let mut i: usize = 0;
    while i < params.len()
        invariant
            i <= params.len(),
            given.len() == i,
        decreases params.len() - i,
    {
        given.push(to_engine(&params[i]));
        i += 1;
    }
    given
}

/// Runs one statement with its parameters and returns the number of rows
/// that it changed.
pub fn run(conn: &rusqlite::Connection, sql: &str, params: &Vec<SqlValue>) -> (r: Result<
    usize,
    String,
>) {
    worded(execute(conn, sql, &engine_values(params)))
}

/// Runs one query with its parameters and returns, of every row, the first
/// `width` columns.
pub fn select(conn: &rusqlite::Connection, sql: &str, params: &Vec<SqlValue>, width: usize) -> (r:
    Result<Vec<Vec<SqlValue>>, String>) {
    let found = match worded(query(conn, sql, &engine_values(params), width)) {
        Ok(found) => found,
        Err(e) => {
            return Err(e);
        },
    };
    let mut rows: Vec<Vec<SqlValue>> = Vec::new();
    let mut k: usize = 0;
    while k < found.len()
        invariant
            k <= found.len(),
        decreases found.len() - k,
    {
        let mut row: Vec<SqlValue> = Vec::new();
        let cells = &found[k];
        let mut c: usize = 0;
        while c < cells.len()
            invariant
                c <= cells.len(),
            decreases cells.len() - c,
        {
            row.push(from_engine(&cells[c]));
            c += 1;
        }
        rows.push(row);
        k += 1;
    }
    Ok(rows)
}

/// What the file holds of the schema that migrations add: its counter,
/// taken as 0 where it cannot be read, and the columns that are there.
pub fn probe_schema(conn: &rusqlite::Connection) -> (r: Schema)
    ensures
        !r.root_name_index && !r.tags && !r.note_tags,
{
    let version: i32 = match pragma_value(conn, VERSION_PRAGMA) {
        Ok(v) => v,
        Err(_) => 0,
    };
    Schema {
        version,
        notes_pinned: compiles(conn, Probe::NotesPinned.statement()),
        notes_sort_order: compiles(conn, Probe::NotesSortOrder.statement()),
        folders_parent_id: compiles(conn, Probe::FoldersParentId.statement()),
        folders_updated_at: compiles(conn, Probe::FoldersUpdatedAt.statement()),
        root_name_index: false,
        tags: false,
        note_tags: false,
    }
}

/// Whether the engine accepts `sql` as a statement on the schema that the
/// file has now: a query of a column tells in this way whether the column
/// is there.
fn compiles(conn: &rusqlite::Connection, sql: &str) -> (r: bool) {
    prepare(conn, sql).is_ok()
}

/// Carries out the actions of `plan` in order and stops at the first that
/// fails. A plan without actions asks nothing of the engine and succeeds.
pub fn run_actions(conn: &rusqlite::Connection, plan: &Vec<Action>) -> (r: Result<(), String>)
    ensures
        plan@.len() == 0 ==> r is Ok,
{
    let mut i: usize = 0;
    while i < plan.len()
        invariant
            i <= plan.len(),
        decreases plan.len() - i,
    {
        let done = match plan[i] {
            Action::SetVersion(v) => worded(pragma_update(conn, VERSION_PRAGMA, v)),
            other => match other.statement() {
                Some(sql) => batch(conn, sql),
                None => Ok(()),
            },
        };
        match done {
            Ok(()) => {},
            Err(e) => {
                return Err(e);
            },
        }
        i += 1;
    }
    Ok(())
}

/// Brings the file behind `conn` to the current schema, and returns what
/// is found of the file afterwards.
///
/// Sets the connection's settings, makes sure of the base tables and the
/// full-text index, then runs, in ascending order, every migration step
/// whose number is above the file's counter. A step that fails ends the
/// initialization with the engine's words. After the last step the file is
/// asked once more: initialization succeeds only where the counter stands
/// at the current version and the columns are there.
pub fn init_db(conn: &rusqlite::Connection) -> (r: Result<Schema, String>)
    ensures
        r matches Ok(reached) ==> found_current(reached),
{
    match batch(conn, CONNECTION_SETTINGS) {
        Ok(()) => {},
        Err(e) => {
            return Err(e);
        },
    }
    match batch(conn, BASE_SCHEMA) {
        Ok(()) => {},
        Err(e) => {
            return Err(e);
        },
    }
    let found = probe_schema(conn);
    match run_actions(conn, &plan_migration(&found)) {
        Ok(()) => {},
        Err(e) => {
            return Err(e);
        },
    }
    let reached = probe_schema(conn);
    if is_found_current(&reached) {
        Ok(reached)
    } else {
        Err("the file did not reach the current schema".to_owned())
    }
}

/// A connection to a database file, and what was found of the file after
/// its initialization.
pub struct Opened {
    pub conn: rusqlite::Connection,
    pub schema: Schema,
}

/// Opens the database file at `path` and brings it to the current schema.
pub fn open_initialized_db(path: &str) -> (r: Result<Opened, String>)
    ensures
        r matches Ok(opened) ==> found_current(opened.schema),
{
    let conn = match worded(open(path)) {
        Ok(conn) => conn,
        Err(e) => {
            return Err(e);
        },
    };
    match init_db(&conn) {
        Ok(schema) => Ok(Opened { conn, schema }),
        Err(e) => Err(e),
    }
}

/// Bounds the wait of `conn` for a lock to two seconds.
pub fn bound_lock_wait(conn: &rusqlite::Connection) -> (r: Result<(), String>) {
    worded(busy_timeout(conn, BUSY_TIMEOUT_MS))
}

/// The start or the end of a transaction.
#[derive(Clone, Copy, Debug, PartialEq, Eq, Structural)]
pub enum Boundary {
    /// The start of a transaction that takes the write lock at once and
    /// holds the checks of references back to its end.
    BeginWrite,
    /// The start of a transaction that takes a lock only when it first
    /// reads.
    BeginRead,
    Commit,
    Rollback,
}

/// The words of a boundary.
pub open spec fn boundary_sql(b: Boundary) -> Seq<char> {
    match b {
        Boundary::BeginWrite => "BEGIN IMMEDIATE; PRAGMA defer_foreign_keys = ON;"@,
        Boundary::BeginRead => "BEGIN DEFERRED"@,
        Boundary::Commit => "COMMIT"@,
        Boundary::Rollback => "ROLLBACK"@,
    }
}

impl Boundary {
    /// The words of the boundary.
    pub fn statement(&self) -> (r: &'static str)
        ensures
            r@ == boundary_sql(*self),
    {
        match self {
            Boundary::BeginWrite => "BEGIN IMMEDIATE; PRAGMA defer_foreign_keys = ON;",
            Boundary::BeginRead => "BEGIN DEFERRED",
            Boundary::Commit => "COMMIT",
            Boundary::Rollback => "ROLLBACK",
        }
    }
}

/// Starts a transaction that takes the write lock at once, so that what is
/// read in it cannot be changed by another writer before it is written.
pub fn begin_write(conn: &rusqlite::Connection) -> (r: Result<(), String>) {
    batch(conn, Boundary::BeginWrite.statement())
}

/// Starts a transaction that only reads: all that is read in it is read
/// from one state of the file, whatever other processes write meanwhile.
pub fn begin_read(conn: &rusqlite::Connection) -> (r: Result<(), String>) {
    batch(conn, Boundary::BeginRead.statement())
}

/// Ends the transaction and keeps what it wrote.
pub fn commit(conn: &rusqlite::Connection) -> (r: Result<(), String>) {
    batch(conn, Boundary::Commit.statement())
}

/// Ends the transaction and drops what it wrote.
pub fn rollback(conn: &rusqlite::Connection) -> (r: Result<(), String>) {
    batch(conn, Boundary::Rollback.statement())
}

/// The store that holds the rows, mended where they break a rule of a
/// store, and how many rows were left out or mended; `None` where a row
/// holds no folder or no note.
pub fn gathered_of_rows(folders: &Vec<Vec<SqlValue>>, notes: &Vec<Vec<SqlValue>>) -> (r: Option<
    Gathered,
>)
    ensures
        match r {
            Some(g) => {
                &&& all_folders(folders@)
                &&& all_notes(notes@)
                &&& is_gathered(folders_of_rows(folders@), notes_of_rows(notes@), g.store@)
                &&& g.store.wf()
                &&& g.folders_left == folders@.len() - g.store@.folders.len()
                &&& g.notes_left == notes@.len() - g.store@.notes.len()
            },
            None => !(all_folders(folders@) && all_notes(notes@)),
        },
{
    let fs = match decode_folders(folders) {
        Some(f) => f,
        None => {
            return None;
        },
    };
    let ns = match decode_notes(notes) {
        Some(n) => n,
        None => {
            return None;
        },
    };
    assert(folder_views(fs@) =~= folders_of_rows(folders@));
    assert(note_views(ns@) =~= notes_of_rows(notes@));
    Some(Store::gather(fs, ns))
}

/// Reads all folders and notes of the file and gathers them into a store.
/// Rows that break a rule of the store are mended or left out, and
/// counted; in the file they stay as they are until they are written
/// again.
pub fn load_gathered(conn: &rusqlite::Connection) -> (r: Result<Gathered, String>)
    ensures
        r matches Ok(g) ==> g.store.wf(),
{
    let none: Vec<SqlValue> = Vec::new();
    let folders = match select(conn, SELECT_FOLDERS, &none, 5) {
        Ok(rows) => rows,
        Err(e) => {
            return Err(e);
        },
    };
    let notes = match select(conn, SELECT_NOTES, &none, 8) {
        Ok(rows) => rows,
        Err(e) => {
            return Err(e);
        },
    };
    match gathered_of_rows(&folders, &notes) {
        Some(g) => Ok(g),
        None => Err("a row of the file holds no folder or no note".to_owned()),
    }
}

/// Reads all folders and notes of the file into a store. Rows that break a
/// rule of the store are mended or left out, as [`Store::gather`] says.
pub fn load_store(conn: &rusqlite::Connection) -> (r: Result<Store, String>)
    ensures
        r matches Ok(s) ==> s.wf(),
{
    match load_gathered(conn) {
        Ok(g) => Ok(g.store),
        Err(e) => Err(e),
    }
}

/// Reads all folders and notes of the file into a store, inside a
/// transaction of its own, so that folders and notes come from one state of
/// the file.
pub fn read_store(conn: &rusqlite::Connection) -> (r: Result<Store, String>)
    ensures
        r matches Ok(s) ==> s.wf(),
{
    match begin_read(conn) {
        Ok(()) => {},
        Err(e) => {
            return Err(e);
        },
    }
    let read = load_store(conn);
    let _ = rollback(conn);
    read
}

/// The one parameter that a statement on a single id takes.
fn id_param(id: &String) -> (r: Vec<SqlValue>)
    ensures
        row_view(r@) == seq![SqlValueView::Text(id@)],
{
    let r = vec![SqlValue::Text(id.clone())];
    assert(row_view(r@) =~= seq![SqlValueView::Text(id@)]);
    r
}

/// Whether `sql` and `params` are the statement that writes `change`, with
/// its parameters: a delete takes the id; a put takes the row of the folder
/// or of the note.
pub open spec fn is_statement_of(change: ChangeView, sql: Seq<char>, params: Seq<SqlValue>) -> bool {
    match change {
        ChangeView::DeleteNote(id) => sql == DELETE_NOTE@ && row_view(params) == seq![
            SqlValueView::Text(id),
        ],
        ChangeView::DeleteFolder(id) => sql == DELETE_FOLDER@ && row_view(params) == seq![
            SqlValueView::Text(id),
        ],
        ChangeView::PutFolder(f) => sql == UPSERT_FOLDER@ && folder_row(row_view(params)) == Some(
            f,
        ),
        ChangeView::PutNote(n) => sql == UPSERT_NOTE@ && note_row(row_view(params)) == Some(n),
    }
}

/// The statement that writes `change`, and its parameters.
pub fn statement_of(change: &Change) -> (r: (&'static str, Vec<SqlValue>))
    ensures
        is_statement_of(change@, r.0@, r.1@),
{
    match change {
        Change::DeleteNote(id) => (DELETE_NOTE, id_param(id)),
        Change::DeleteFolder(id) => (DELETE_FOLDER, id_param(id)),
        Change::PutFolder(f) => (UPSERT_FOLDER, folder_params(f)),
        Change::PutNote(n) => (UPSERT_NOTE, note_params(n)),
    }
}

/// Writes one change to the file: runs its statement with its parameters.
fn write_change(conn: &rusqlite::Connection, change: &Change) -> (r: Result<(), String>) {
    let (sql, params) = statement_of(change);
    match run(conn, sql, &params) {
        Ok(_) => Ok(()),
        Err(e) => Err(e),
    }
}

/// Writes to the file what changed between `before`, the store that was
/// read from it, and `after`: the changes that lead from the one to the
/// other, in their order, up to the first that the engine turns down. Where
/// the two stores hold the same, nothing is written and nothing can fail.
pub fn save_store(conn: &rusqlite::Connection, before: &Store, after: &Store) -> (r: Result<
    (),
    String,
>)
    requires
        before.wf(),
        after.wf(),
    ensures
        before@ == after@ ==> r is Ok,
{
    let changes = before.changes_to(after);
    let mut i: usize = 0;
    while i < changes.len()
        invariant
            i <= changes.len(),
            before@ == after@ ==> changes.len() == 0,
        decreases changes.len() - i,
    {
        match write_change(conn, &changes[i]) {
            Ok(()) => {},
            Err(e) => {
                return Err(e);
            },
        }
        i += 1;
    }
    Ok(())
}

/// Whether `r` is what a search returns for `found`, the rows that the
/// engine gave or the words of its failure: the hits that the rows hold, or
/// an internal error, with the engine's words where it failed.
pub open spec fn is_outcome_of(
    found: Result<Vec<Vec<SqlValue>>, String>,
    r: Result<Vec<NoteHit>, BridgeError>,
) -> bool {
    match found {
        Ok(rows) => if all_hits(rows@) {
            &&& r matches Ok(hits)
            &&& hits.len() == rows.len()
            &&& forall|i: int|
                0 <= i < hits.len() ==> Some((#[trigger] hits[i])@) == hit_row(row_view(rows[i]@))
        } else {
            r matches Err(e) && e.code == ErrorCode::Internal
        },
        Err(words) => r matches Err(e) && e.code == ErrorCode::Internal && e.message@ == words@,
    }
}

/// What a search returns for the rows that the engine gave, or for its
/// failure.
pub fn hits_of(found: Result<Vec<Vec<SqlValue>>, String>) -> (r: Result<Vec<NoteHit>, BridgeError>)
    ensures
        is_outcome_of(found, r),
{
    match found {
        Ok(rows) => match decode_hits(&rows) {
            Some(hits) => Ok(hits),
            None => Err(internal_error("a search row has not the shape of a hit".to_owned())),
        },
        Err(words) => Err(internal_error(words)),
    }
}

/// What a search with text returns: the outcome of the full-text search
/// where the index took the query, else the outcome of the substring
/// search that was made in its place. That the index turned the query down
/// is never an error by itself.
pub fn settle_search(
    ranked: Result<Vec<Vec<SqlValue>>, String>,
    substring: Option<Result<Vec<Vec<SqlValue>>, String>>,
) -> (r: Result<Vec<NoteHit>, BridgeError>)
    ensures
        match (ranked, substring) {
            (Ok(_), _) => is_outcome_of(ranked, r),
            (Err(_), Some(found)) => is_outcome_of(found, r),
            (Err(_), None) => is_outcome_of(ranked, r),
        },
{
    match ranked {
        Ok(rows) => hits_of(Ok(rows)),
        Err(words) => match substring {
            Some(found) => hits_of(found),
            None => hits_of(Err(words)),
        },
    }
}

/// The text that a search asks for: empty where the query is missing.
pub open spec fn asked_text(query: Option<Seq<char>>) -> Seq<char> {
    match query {
        Some(q) => q,
        None => Seq::empty(),
    }
}

/// The two parameters of a search: the text and the limit.
fn search_params(text: &String, limit: usize) -> (r: Vec<SqlValue>)
    requires
        limit <= 200,
    ensures
        row_view(r@) == seq![SqlValueView::Text(text@), SqlValueView::Integer(limit as i64)],
{
    let r = vec![SqlValue::Text(text.clone()), SqlValue::Integer(limit as i64)];
    assert(row_view(r@) =~= seq![SqlValueView::Text(text@), SqlValueView::Integer(limit as i64)]);
    r
}

/// Searches the notes.
///
/// A query that is missing, empty or all white space gives the most
/// recently updated notes of `store`, newest first. Any other query goes to
/// the full-text index of the file; where the index turns the query down
/// as malformed, the notes whose title or body holds the query as a
/// substring are returned in its place, newest first. No more notes are
/// returned than `limit` asks for, between 1 and 200, and 80 where it asks
/// for none: the engine is given that limit, and what it returns beyond it
/// is cut off. Only a failure of the engine on the substring search, or a row
/// that holds no hit, is an error, and it is an internal one.
pub fn search_notes(
    conn: &rusqlite::Connection,
    store: &Store,
    query: Option<String>,
    limit: Option<i64>,
) -> (r: Result<Vec<NoteHit>, BridgeError>)
    requires
        store.wf(),
    ensures
        r matches Err(e) ==> e.code == ErrorCode::Internal,
        r matches Ok(hits) ==> hits.len() <= clamped(limit),
        trimmed(asked_text(opt_view(query))).len() == 0 ==> (r matches Ok(hits) && exists|
            picks: Seq<int>,
        |
            {
                &&& #[trigger] picks_newest(store@.notes, picks, clamped(limit))
                &&& hits.len() == picks.len()
                &&& forall|a: int|
                    0 <= a < hits.len() ==> (#[trigger] hits[a])@ == hit_of(
                        store@.folders,
                        store@.notes[picks[a]],
                    )
            }),
{
    let asked = match query {
        Some(q) => q,
        None => String::new(),
    };
    let text = trim(asked.as_str());
    if text.as_str().unicode_len() == 0 {
        return Ok(store.recent(limit));
    }
    let k = clamp_limit(limit);
    let ranked = select(conn, SEARCH_RANKED, &search_params(&text, k), 6);
    let substring = if ranked.is_err() {
        let pattern = like_pattern_of(text.as_str());
        Some(select(conn, SEARCH_SUBSTRING, &search_params(&pattern, k), 6))
    } else {
        None
    };
    match settle_search(ranked, substring) {
        Ok(hits) => {
            let mut hits = hits;
            if hits.len() > k {
                hits.truncate(k);
            }
            Ok(hits)
        },
        Err(e) => Err(e),
    }
}

/// What is done when a step on the file failed inside a transaction: the
/// transaction is dropped, and the failure is an internal error.
fn give_up(conn: &rusqlite::Connection, words: String) -> (r: BridgeError)
    ensures
        r.code == ErrorCode::Internal,
        r.message@ == words@,
{
    let _ = rollback(conn);
    internal_error(words)
}

/// `e` is the report of an error of the store.
pub open spec fn tells_of_store_error(e: BridgeError) -> bool {
    exists|s: StoreError| e.code == #[trigger] s.spec_code() && e.message@ == s.spec_message()
}

/// `e` is the report of an error of the store that depends on what the
/// store holds: any but the two that are found before the file is touched.
pub open spec fn tells_of_late_store_error(e: BridgeError) -> bool {
    exists|s: StoreError|
        e.code == #[trigger] s.spec_code() && e.message@ == s.spec_message() && s
            != StoreError::InvalidNoteId && s != StoreError::InvalidFolderId
}

/// Whether a request may change the store, and so has to run with the
/// write lock held from its start: all but the reading of a note.
pub fn changes_store(request: &StoreRequest) -> (r: bool)
    ensures
        r == !(request@ is GetNote),
{
    match request {
        StoreRequest::GetNote { .. } => false,
        _ => true,
    }
}

/// Answers a store request against the file.
///
/// A request that names an id that is not safe is turned down at once, as
/// a validation error: the file is not touched and no id is drawn. A
/// request that only reads draws no id and takes no write lock: it reads
/// the store in a transaction of its own. Any other request
/// draws two ids from `ids`, for the note and for the inbox that it may
/// create, and runs in one transaction that takes the write lock at once:
/// the store is read, the request is applied to it at the time of the
/// clock, and what changed is written back.
///
/// A failure of the engine is an internal error. What the store answers
/// is what [`apply`] says of the store that was read.
pub fn answer(conn: &rusqlite::Connection, ids: &mut IdSource, request: StoreRequest) -> (r: Result<
    Reply,
    BridgeError,
>)
    ensures
        early_error(request@) matches Some(e) ==> r matches Err(told) && told.code == e.spec_code()
            && told.message@ == e.spec_message(),
        early_error(request@) is Some || request@ is GetNote ==> *final(ids) == *old(ids),
        early_error(request@) is None && !(request@ is GetNote) ==> final(ids).process == old(
            ids,
        ).process && final(ids).count == next_count(next_count(old(ids).count)),
        early_error(request@) is None ==> (r matches Err(e) ==> e.code == ErrorCode::Internal
            || tells_of_late_store_error(e)),
        r matches Err(e) ==> e.code == ErrorCode::Internal || tells_of_store_error(e),
        r matches Ok(reply) ==> match request@ {
            StoreRequestView::EnsureInbox => reply is Inbox,
            StoreRequestView::CreateNote { title, body, folder_id } => {
                &&& reply matches Reply::Created(c)
                &&& safe_id(c.id@)
                &&& exists|time: nat|
                    c.id@ == #[trigger] id_text(
                        time,
                        old(ids).process as nat,
                        old(ids).count as nat,
                    )
                &&& folder_id matches Some(f) ==> c.folder_id@ == f
                &&& c.created_at == c.updated_at
            },
            StoreRequestView::UpdateNote { id, title, body, updated_at } => {
                &&& reply matches Reply::Updated { id: told, updated_at: stamp }
                &&& told@ == id
                &&& updated_at matches Some(t) ==> stamp == t
            },
            StoreRequestView::GetNote { id } => {
                &&& reply matches Reply::Note(d)
                &&& d.note@.id == id
            },
        },
{
    match check_early(&request) {
        Some(e) => {
            return Err(e.report());
        },
        None => {},
    }
    if !changes_store(&request) {
        let mut store = match read_store(conn) {
            Ok(s) => s,
            Err(e) => {
                return Err(internal_error(e));
            },
        };
        let ghost held = store@;
        return match apply(&mut store, request, String::new(), String::new(), 0) {
            Ok(reply) => {
                proof {
                    let id = request@->GetNote_id;
                    assert(has_note(held.notes, id));
                }
                Ok(reply)
            },
            Err(e) => Err(e.report()),
        };
    }
    let first = now_nanos();
    let note_id = ids.next_id(first);
    let inbox = ids.next_id(now_nanos());
    match begin_write(conn) {
        Ok(()) => {},
        Err(e) => {
            return Err(internal_error(e));
        },
    }
    let mut store = match load_store(conn) {
        Ok(s) => s,
        Err(e) => {
            return Err(give_up(conn, e));
        },
    };
    let before = store.clone();
    let now = now_ms();
    let outcome = apply(&mut store, request, note_id, inbox, now);
    match save_store(conn, &before, &store) {
        Ok(()) => {},
        Err(e) => {
            return Err(give_up(conn, e));
        },
    }
    match commit(conn) {
        Ok(()) => {},
        Err(e) => {
            return Err(give_up(conn, e));
        },
    }
    match outcome {
        Ok(reply) => {
            assert(note_id@ == id_text(
                first as nat,
                old(ids).process as nat,
                old(ids).count as nat,
            ));
            Ok(reply)
        },
        Err(e) => Err(e.report()),
    }
}

/// Carries out one command of the desktop program on the file.
///
/// What is settled of the command before the store is looked at is
/// returned at once, and the file is not touched. Any other command runs
/// in one transaction that takes the write lock at once: the store is read,
/// the command is carried out on it, and what changed is written back. If
/// the store turns the command down, or the engine fails, the transaction
/// is dropped and the file is left as it was.
pub fn change(conn: &rusqlite::Connection, command: Command) -> (r: Result<(), ChangeError>)
    ensures
        match early_outcome(command) {
            Some(Ok(_)) => r is Ok,
            Some(Err(e)) => r matches Err(ChangeError::Store(got)) && got == e,
            None => r matches Err(ChangeError::Store(e)) ==> is_late_error(e),
        },
{
    match settle_early(&command) {
        Some(Ok(())) => {
            return Ok(());
        },
        Some(Err(e)) => {
            return Err(ChangeError::Store(e));
        },
        None => {},
    }
    match begin_write(conn) {
        Ok(()) => {},
        Err(e) => {
            return Err(ChangeError::Engine(e));
        },
    }
    let mut store = match load_store(conn) {
        Ok(s) => s,
        Err(e) => {
            let _ = rollback(conn);
            return Err(ChangeError::Engine(e));
        },
    };
    let before = store.clone();
    let now = now_ms();
    let ghost held = store@;
    let done = store.run(command, now);
    proof {
        lemma_late_errors(held, command, now, done, store@);
    }
    match done {
        Ok(()) => {},
        Err(e) => {
            let _ = rollback(conn);
            return Err(ChangeError::Store(e));
        },
    }
    match save_store(conn, &before, &store) {
        Ok(()) => {},
        Err(e) => {
            let _ = rollback(conn);
            return Err(ChangeError::Engine(e));
        },
    }
    match commit(conn) {
        Ok(()) => Ok(()),
        Err(e) => {
            let _ = rollback(conn);
            Err(ChangeError::Engine(e))
        },
    }
}

/// Answers a request against the file behind `conn`: a store request as
/// [`answer`] does, a search as [`search_notes`] does on the store that is
/// read from the file. The search and the reading of the store run in one
/// transaction, so that both see one state of the file.
pub fn serve_on(conn: &rusqlite::Connection, ids: &mut IdSource, operation: Operation) -> (r:
    Result<Reply, BridgeError>)
    ensures
        operation_early_error(operation@) matches Some(e) ==> r matches Err(told) && told.code
            == e.spec_code() && told.message@ == e.spec_message() && *final(ids) == *old(ids),
        operation_early_error(operation@) is None ==> (r matches Err(e) ==> e.code
            == ErrorCode::Internal || tells_of_late_store_error(e)),
        r matches Err(e) ==> e.code == ErrorCode::Internal || tells_of_store_error(e),
        operation@ matches OperationView::Search { query, limit } ==> {
            &&& r matches Err(e) ==> e.code == ErrorCode::Internal
            &&& r matches Ok(reply) ==> reply matches Reply::Notes(hits) && hits.len() <= clamped(
                limit,
            )
            &&& *final(ids) == *old(ids)
        },
{
    match operation {
        Operation::Store(request) => answer(conn, ids, request),
        Operation::Search { query, limit } => {
            match begin_read(conn) {
                Ok(()) => {},
                Err(e) => {
                    return Err(internal_error(e));
                },
            }
            let store = match load_store(conn) {
                Ok(s) => s,
                Err(e) => {
                    return Err(give_up(conn, e));
                },
            };
            let found = search_notes(conn, &store, query, limit);
            let _ = rollback(conn);
            match found {
                Ok(hits) => Ok(Reply::Notes(hits)),
                Err(e) => Err(e),
            }
        },
    }
}

/// Answers one request of an external client against the database file at
/// `path`.
///
/// The request is read first: an operation that is not known, a payload
/// of the wrong shape, or an id that is not safe is a validation error, and
/// the file is not touched. Then the file is opened and brought to the current schema, the wait for
/// a lock is bounded, and the request is answered.
pub fn serve(path: &str, ids: &mut IdSource, op: &str, payload: &Payload) -> (r: Result<
    Reply,
    BridgeError,
>)
    ensures
        understood(op@, payload@) matches Err(why) ==> r matches Err(e) && e.code
            == ErrorCode::Validation && e.message@ == why.spec_message() && *final(ids) == *old(
            ids,
        ),
        understood(op@, payload@) matches Ok(o) ==> match operation_early_error(o) {
            Some(e) => r matches Err(told) && told.code == e.spec_code() && told.message@
                == e.spec_message() && *final(ids) == *old(ids),
            None => r matches Err(e) ==> e.code == ErrorCode::Internal
                || tells_of_late_store_error(e),
        },
{
    let operation = match parse_request(op, payload) {
        Ok(o) => o,
        Err(why) => {
            return Err(why.report());
        },
    };
    match check_operation_early(&operation) {
        Some(e) => {
            return Err(e.report());
        },
        None => {},
    }
    let conn = match open_initialized_db(path) {
        Ok(opened) => opened.conn,
        Err(e) => {
            return Err(internal_error(e));
        },
    };
    match bound_lock_wait(&conn) {
        Ok(()) => {},
        Err(e) => {
            return Err(internal_error(e));
        },
    }
    serve_on(&conn, ids, operation)
}

} // verus!
