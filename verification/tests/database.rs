use anote_store::bridge::{Field, Operation, Payload, Reply, StoreRequest};
use anote_store::commands::{settle_early, ChangeError, Command};
use anote_store::changes::Change;
use anote_store::db::change;
use anote_store::db::{begin_read, read_store, statement_of};
use anote_store::db::changes_store;
use anote_store::db::{
    answer, BASE_SCHEMA, begin_write, bound_lock_wait, commit, hits_of, init_db, load_store,
    open_initialized_db, probe_schema, rollback, run, run_actions,
    save_store, search_notes, select, serve, serve_on, settle_search,
};
use anote_store::db::{gathered_of_rows, load_gathered};
use anote_store::ident::IdSource;
use anote_store::model::{ErrorCode, Folder, Note, StoreError};
use anote_store::rows::{decode_folder, decode_hit, decode_hits, decode_note, folder_params, note_params};
use anote_store::db::Boundary;
use anote_store::schema::{is_found_current, plan_step, Probe, Schema};
use anote_store::search::NoteHit;
use anote_store::sqlite::SqlValue;
use anote_store::store::Store;

fn s(x: &str) -> String {
    x.to_string()
}

fn text(x: &str) -> SqlValue {
    SqlValue::Text(s(x))
}

fn fresh() -> rusqlite::Connection {
    open_initialized_db(":memory:").unwrap().conn
}

fn count(conn: &rusqlite::Connection, sql: &str) -> i64 {
    match &select(conn, sql, &vec![], 1).unwrap()[0][0] {
        SqlValue::Integer(i) => *i,
        other => panic!("unexpected {:?}", other),
    }
}

fn table_sql(conn: &rusqlite::Connection) -> Vec<Vec<SqlValue>> {
    select(
        conn,
        "SELECT type, name, tbl_name FROM sqlite_master WHERE name NOT LIKE 'notes_fts_%' ORDER BY type, name",
        &vec![],
        3,
    )
    .unwrap()
}

fn columns(conn: &rusqlite::Connection, table: &str) -> Vec<String> {
    let rows = select(conn, &format!("SELECT name FROM pragma_table_info('{}')", table), &vec![], 1).unwrap();
    rows.into_iter()
        .map(|r| match &r[0] {
            SqlValue::Text(t) => t.clone(),
            other => panic!("unexpected {:?}", other),
        })
        .collect()
}

fn create_note(conn: &rusqlite::Connection, ids: &mut IdSource, title: &str, body: &str) -> String {
    let r = answer(
        conn,
        ids,
        StoreRequest::CreateNote { title: s(title), body: s(body), folder_id: None },
    );
    match r {
        Ok(Reply::Created(c)) => c.id,
        other => panic!("unexpected {:?}", other),
    }
}

fn search(conn: &rusqlite::Connection, query: &str) -> Vec<NoteHit> {
    let store = load_store(conn).unwrap();
    search_notes(conn, &store, Some(s(query)), None).unwrap()
}

#[test]
fn init_db_reaches_the_current_schema() {
    let conn = fresh();
    let found = probe_schema(&conn);
    assert_eq!(found.version, 4);
    assert!(found.notes_pinned && found.notes_sort_order);
    assert!(found.folders_parent_id && found.folders_updated_at);
    assert_eq!(
        columns(&conn, "notes"),
        vec!["id", "folder_id", "title", "body", "created_at", "updated_at", "pinned", "sort_order"]
    );
    assert_eq!(columns(&conn, "folders"), vec!["id", "name", "created_at", "parent_id", "updated_at"]);
    assert_eq!(columns(&conn, "tags"), vec!["id", "name", "color"]);
    assert_eq!(columns(&conn, "note_tags"), vec!["note_id", "tag_id"]);
    assert_eq!(count(&conn, "SELECT COUNT(1) FROM sqlite_master WHERE name = 'idx_folders_name_root'"), 1);
    assert_eq!(count(&conn, "SELECT COUNT(1) FROM sqlite_master WHERE name = 'idx_notes_folder'"), 1);
    assert_eq!(count(&conn, "SELECT COUNT(1) FROM sqlite_master WHERE type = 'trigger'"), 3);
    assert_eq!(count(&conn, "PRAGMA foreign_keys"), 1);
}

#[test]
fn init_db_can_run_again() {
    let conn = fresh();
    let before = table_sql(&conn);
    let reached = init_db(&conn).unwrap();
    assert_eq!(reached, probe_schema(&conn));
    assert_eq!(init_db(&conn), Ok(reached));
    assert_eq!(table_sql(&conn), before);
    assert_eq!(probe_schema(&conn).version, 4);
}

#[test]
fn init_db_migrates_an_old_file() {
    let conn = rusqlite::Connection::open_in_memory().unwrap();
    conn.execute_batch(BASE_SCHEMA).unwrap();
    conn.execute_batch(
        "INSERT INTO folders VALUES ('f1', 'Work', 100);
         INSERT INTO folders VALUES ('f2', 'Home', 200);
         INSERT INTO notes VALUES ('n1', 'f1', 'old', '', 1, 10);
         INSERT INTO notes VALUES ('n2', 'f1', 'newer', '', 2, 30);
         INSERT INTO notes VALUES ('n3', 'f1', 'middle', '', 3, 20);
         INSERT INTO notes VALUES ('n4', 'f2', 'alone', '', 4, 5);",
    )
    .unwrap();
    let found = probe_schema(&conn);
    assert_eq!(
        found,
        Schema {
            version: 0,
            notes_pinned: false,
            notes_sort_order: false,
            folders_parent_id: false,
            folders_updated_at: false,
            root_name_index: false,
            tags: false,
            note_tags: false
        }
    );
    assert_eq!(init_db(&conn), Ok(probe_schema(&fresh())));
    assert_eq!(probe_schema(&conn).version, 4);
    // the sort order follows the time of update, newest on top, folder by folder
    let store = load_store(&conn).unwrap();
    let orders: Vec<(String, i64)> =
        store.get_notes_all().into_iter().map(|n| (n.id, n.sort_order)).collect();
    assert_eq!(orders, vec![(s("n1"), 2), (s("n2"), 0), (s("n3"), 1), (s("n4"), 0)]);
    // folders got their time of update from their time of creation
    let times: Vec<(i64, i64)> =
        store.list_folders().into_iter().map(|f| (f.created_at, f.updated_at)).collect();
    assert_eq!(times, vec![(100, 100), (200, 200)]);
    assert_eq!(table_sql(&conn), table_sql(&fresh()));
}

#[test]
fn init_db_resumes_after_step_one() {
    let old = "CREATE TABLE folders (id TEXT PRIMARY KEY, name TEXT NOT NULL, created_at INTEGER NOT NULL);
         CREATE TABLE notes (id TEXT PRIMARY KEY, folder_id TEXT NOT NULL REFERENCES folders(id) ON DELETE CASCADE,
            title TEXT NOT NULL DEFAULT '', body TEXT NOT NULL DEFAULT '', created_at INTEGER NOT NULL, updated_at INTEGER NOT NULL);";
    let stopped = rusqlite::Connection::open_in_memory().unwrap();
    stopped.execute_batch(old).unwrap();
    let plan = plan_step(1, &probe_schema(&stopped));
    assert_eq!(plan.len(), 4);
    assert_eq!(run_actions(&stopped, &plan), Ok(()));
    let after_one = probe_schema(&stopped);
    assert_eq!(after_one.version, 1);
    assert!(after_one.notes_pinned && after_one.notes_sort_order && !after_one.folders_parent_id);
    assert_eq!(init_db(&stopped), Ok(probe_schema(&fresh())));

    let whole = rusqlite::Connection::open_in_memory().unwrap();
    whole.execute_batch(old).unwrap();
    assert_eq!(init_db(&whole), Ok(probe_schema(&fresh())));
    assert_eq!(table_sql(&stopped), table_sql(&whole));
    assert_eq!(columns(&stopped, "notes"), columns(&whole, "notes"));
    assert_eq!(columns(&stopped, "folders"), columns(&whole, "folders"));
    assert_eq!(probe_schema(&stopped), probe_schema(&whole));
    assert_eq!(probe_schema(&stopped).version, 4);
}

#[test]
fn init_db_finishes_a_step_that_stopped_half_way() {
    let conn = rusqlite::Connection::open_in_memory().unwrap();
    conn.execute_batch(
        "CREATE TABLE folders (id TEXT PRIMARY KEY, name TEXT NOT NULL, created_at INTEGER NOT NULL);
         CREATE TABLE notes (id TEXT PRIMARY KEY, folder_id TEXT NOT NULL REFERENCES folders(id) ON DELETE CASCADE,
            title TEXT NOT NULL DEFAULT '', body TEXT NOT NULL DEFAULT '', created_at INTEGER NOT NULL, updated_at INTEGER NOT NULL,
            pinned INTEGER NOT NULL DEFAULT 0);",
    )
    .unwrap();
    assert_eq!(init_db(&conn), Ok(probe_schema(&fresh())));
    assert_eq!(columns(&conn, "notes"), columns(&fresh(), "notes"));
    assert_eq!(probe_schema(&conn).version, 4);
}

#[test]
fn init_db_fails_where_a_step_fails() {
    // two root-level folders with one name: the index of the third step cannot be built
    let conn = rusqlite::Connection::open_in_memory().unwrap();
    conn.execute_batch(BASE_SCHEMA).unwrap();
    assert_eq!(run_actions(&conn, &plan_step(1, &probe_schema(&conn))), Ok(()));
    assert_eq!(run_actions(&conn, &plan_step(2, &probe_schema(&conn))), Ok(()));
    conn.execute_batch(
        "INSERT INTO folders (id, name, created_at) VALUES ('a', 'Inbox', 1);
         INSERT INTO folders (id, name, created_at) VALUES ('b', 'Inbox', 2);",
    )
    .unwrap();
    assert_eq!(probe_schema(&conn).version, 2);
    assert!(init_db(&conn).is_err());
    // the counter stays below the step that failed, and the steps before it are not run again
    let found = probe_schema(&conn);
    assert_eq!(found.version, 2);
    assert!(found.notes_pinned && found.folders_parent_id);
    assert!(init_db(&conn).is_err());
    conn.execute_batch("UPDATE folders SET name = 'Other' WHERE id = 'b';").unwrap();
    assert_eq!(init_db(&conn).unwrap().version, 4);
}

#[test]
fn init_db_succeeds_only_on_a_current_file() {
    // a counter that claims more than the file holds: no step runs, and the file is found wanting
    let conn = rusqlite::Connection::open_in_memory().unwrap();
    conn.execute_batch(BASE_SCHEMA).unwrap();
    conn.execute_batch("PRAGMA user_version = 4;").unwrap();
    assert_eq!(init_db(&conn), Err(s("the file did not reach the current schema")));
    // a file of a later version is taken as it is
    let later = fresh();
    later.execute_batch("PRAGMA user_version = 9;").unwrap();
    assert_eq!(init_db(&later).unwrap().version, 9);
    assert!(is_found_current(&probe_schema(&later)));
    assert!(!is_found_current(&Schema::new()));
}

#[test]
fn probes_and_boundaries_have_their_words() {
    assert_eq!(Probe::NotesPinned.statement(), "SELECT pinned FROM notes LIMIT 0");
    assert_eq!(Probe::NotesSortOrder.statement(), "SELECT sort_order FROM notes LIMIT 0");
    assert_eq!(Probe::FoldersParentId.statement(), "SELECT parent_id FROM folders LIMIT 0");
    assert_eq!(Probe::FoldersUpdatedAt.statement(), "SELECT updated_at FROM folders LIMIT 0");
    assert_eq!(Boundary::BeginWrite.statement(), "BEGIN IMMEDIATE; PRAGMA defer_foreign_keys = ON;");
    assert_eq!(Boundary::BeginRead.statement(), "BEGIN DEFERRED");
    assert_eq!(Boundary::Commit.statement(), "COMMIT");
    assert_eq!(Boundary::Rollback.statement(), "ROLLBACK");
}

#[test]
fn init_db_fails_on_a_broken_file() {
    let conn = rusqlite::Connection::open_in_memory().unwrap();
    conn.execute_batch("CREATE TABLE notes (x INTEGER); CREATE TABLE folders (y INTEGER);").unwrap();
    assert!(init_db(&conn).is_err());
}

#[test]
fn open_initialized_db_opens_what_it_is_given() {
    let opened = open_initialized_db(":memory:").unwrap();
    assert_eq!(opened.schema, probe_schema(&opened.conn));
    assert_eq!(opened.schema.version, 4);
    let conn = opened.conn;
    assert_eq!(probe_schema(&conn).version, 4);
    assert_eq!(bound_lock_wait(&conn), Ok(()));
    assert!(open_initialized_db("/nonexistent-dir-for-anote/sub/anote.db").is_err());
}

#[test]
fn ensure_inbox_on_the_file_makes_one_inbox() {
    let conn = fresh();
    let mut ids = IdSource::new(7);
    let first = match answer(&conn, &mut ids, StoreRequest::EnsureInbox) {
        Ok(Reply::Inbox { folder_id }) => folder_id,
        other => panic!("unexpected {:?}", other),
    };
    for _ in 0..5 {
        let mut other_process = IdSource::new(8);
        assert_eq!(
            answer(&conn, &mut other_process, StoreRequest::EnsureInbox),
            Ok(Reply::Inbox { folder_id: first.clone() })
        );
    }
    assert_eq!(count(&conn, "SELECT COUNT(1) FROM folders WHERE name = 'Inbox' AND parent_id IS NULL"), 1);
    assert_eq!(count(&conn, "SELECT COUNT(1) FROM folders"), 1);
}

#[test]
fn create_note_on_the_file() {
    let conn = fresh();
    let mut ids = IdSource::new(7);
    let a = create_note(&conn, &mut ids, "first", "alpha body");
    let b = create_note(&conn, &mut ids, "second", "beta body");
    assert_ne!(a, b);
    assert_eq!(count(&conn, "SELECT COUNT(1) FROM folders WHERE name = 'Inbox'"), 1);
    let store = load_store(&conn).unwrap();
    let notes = store.get_notes_all();
    assert_eq!(notes.len(), 2);
    assert_eq!((notes[0].id.as_str(), notes[0].sort_order), (a.as_str(), 1));
    assert_eq!((notes[1].id.as_str(), notes[1].sort_order), (b.as_str(), 0));
    assert_eq!(notes[0].folder_id, store.list_folders()[0].id);
    assert!(!notes[1].pinned);
    // a folder that is not there
    let r = answer(
        &conn,
        &mut ids,
        StoreRequest::CreateNote { title: s("t"), body: s("b"), folder_id: Some(s("nope")) },
    );
    let e = r.unwrap_err();
    assert_eq!(e.code, ErrorCode::Validation);
    assert_eq!(e.message, "folder not found");
    let r = answer(
        &conn,
        &mut ids,
        StoreRequest::CreateNote { title: s("t"), body: s("b"), folder_id: Some(s("x y")) },
    );
    assert_eq!(r.unwrap_err().message, "invalid folder_id");
    assert_eq!(count(&conn, "SELECT COUNT(1) FROM notes"), 2);
}

#[test]
fn update_note_on_the_file_detects_stale_writes() {
    let conn = fresh();
    let mut ids = IdSource::new(7);
    let id = create_note(&conn, &mut ids, "t", "b");
    let stored = load_store(&conn).unwrap().get_notes_all()[0].updated_at;
    let r = answer(
        &conn,
        &mut ids,
        StoreRequest::UpdateNote { id: id.clone(), title: s("t2"), body: s("b2"), updated_at: Some(stored + 5) },
    );
    assert_eq!(r, Ok(Reply::Updated { id: id.clone(), updated_at: stored + 5 }));
    let r = answer(
        &conn,
        &mut ids,
        StoreRequest::UpdateNote { id: id.clone(), title: s("t3"), body: s("b3"), updated_at: Some(stored + 4) },
    );
    let e = r.unwrap_err();
    assert_eq!(e.code, ErrorCode::Conflict);
    assert_eq!(e.message, "stale note update rejected");
    let n = load_store(&conn).unwrap().get_notes_all().pop().unwrap();
    assert_eq!((n.title.as_str(), n.body.as_str(), n.updated_at), ("t2", "b2", stored + 5));
    let r = answer(
        &conn,
        &mut ids,
        StoreRequest::UpdateNote { id: s("missing"), title: s(""), body: s(""), updated_at: None },
    );
    let e = r.unwrap_err();
    assert_eq!((e.code, e.message.as_str()), (ErrorCode::Validation, "note not found"));
    let r = answer(&conn, &mut ids, StoreRequest::GetNote { id: id.clone() });
    match r {
        Ok(Reply::Note(d)) => {
            assert_eq!(d.note.title, "t2");
            assert_eq!(d.folder_name, "Inbox");
        }
        other => panic!("unexpected {:?}", other),
    }
    let r = answer(&conn, &mut ids, StoreRequest::GetNote { id: s("bad id!") });
    assert_eq!(r.unwrap_err().message, "invalid note id");
}

#[test]
fn search_uses_the_full_text_index() {
    let conn = fresh();
    let mut ids = IdSource::new(7);
    let milk = create_note(&conn, &mut ids, "Shopping", "buy milk and bread");
    let _other = create_note(&conn, &mut ids, "Ideas", "write a verified store");
    let hits = search(&conn, "milk");
    assert_eq!(hits.len(), 1);
    assert_eq!(hits[0].id, milk);
    assert_eq!(hits[0].title, "Shopping");
    assert_eq!(hits[0].preview, "buy milk and bread");
    assert_eq!(hits[0].folder_name, "Inbox");
    assert_eq!(search(&conn, "  milk \n").len(), 1);
    assert!(search(&conn, "cheese").is_empty());
    // the index follows updates and deletes
    let stamp = load_store(&conn).unwrap().get_notes_all()[0].updated_at + 1;
    answer(
        &conn,
        &mut ids,
        StoreRequest::UpdateNote { id: milk.clone(), title: s("Shopping"), body: s("buy cheese"), updated_at: Some(stamp) },
    )
    .unwrap();
    assert!(search(&conn, "milk").is_empty());
    assert_eq!(search(&conn, "cheese").len(), 1);
    let before = load_store(&conn).unwrap();
    let mut after = before.clone();
    assert!(after.delete_note(&milk));
    begin_write(&conn).unwrap();
    save_store(&conn, &before, &after).unwrap();
    commit(&conn).unwrap();
    assert!(search(&conn, "cheese").is_empty());
    assert_eq!(search(&conn, "verified").len(), 1);
}

#[test]
fn search_falls_back_to_substrings_on_malformed_queries() {
    let conn = fresh();
    let mut ids = IdSource::new(7);
    let pct = create_note(&conn, &mut ids, "Discount", "save 100% today");
    let plain = create_note(&conn, &mut ids, "Plain", "save 1000 today");
    let quote = create_note(&conn, &mut ids, "He said \"hi", "nothing");
    // the full-text index turns these queries down; the substring search answers
    let hits = search(&conn, "100%");
    assert_eq!(hits.iter().map(|h| h.id.clone()).collect::<Vec<_>>(), vec![pct.clone()]);
    assert_eq!(hits[0].preview, "save 100% today");
    assert_eq!(hits[0].folder_name, "Inbox");
    let hits = search(&conn, "\"hi");
    assert_eq!(hits.iter().map(|h| h.id.clone()).collect::<Vec<_>>(), vec![quote]);
    // the substring search is blind to the case of ASCII letters, as the engine is
    let hits = search(&conn, "SAVE 100%");
    assert_eq!(hits.iter().map(|h| h.id.clone()).collect::<Vec<_>>(), vec![pct]);
    assert!(search(&conn, "no such text (").is_empty());
    // words that the index reads as operators are no error either
    let store = load_store(&conn).unwrap();
    for q in ["AND OR NOT", "NEAR(", "title:", "a AND", "^", "*", "(", "\"", "-"] {
        let r = search_notes(&conn, &store, Some(s(q)), Some(3));
        assert!(r.is_ok(), "query {:?} gave {:?}", q, r);
    }
    // several hits come newest first
    let stamp = store.get_notes_all()[0].updated_at;
    answer(
        &conn,
        &mut ids,
        StoreRequest::UpdateNote { id: plain.clone(), title: s("Plain"), body: s("save 1000% today"), updated_at: Some(stamp + 50) },
    )
    .unwrap();
    let hits = search(&conn, "00% t");
    assert_eq!(hits.len(), 2);
    assert_eq!(hits[0].id, plain);
    assert!(hits[0].updated_at >= hits[1].updated_at);
}

#[test]
fn substring_search_reads_wildcards_as_text() {
    let conn = fresh();
    let mut ids = IdSource::new(7);
    let under = create_note(&conn, &mut ids, "snake", "a_b (");
    let _axb = create_note(&conn, &mut ids, "other", "axb (");
    let pct = create_note(&conn, &mut ids, "p", "50%( off");
    let _no = create_note(&conn, &mut ids, "q", "50 ( off");
    let back = create_note(&conn, &mut ids, "r", "c:\\dir (");
    let hits = search(&conn, "a_b (");
    assert_eq!(hits.iter().map(|h| h.id.clone()).collect::<Vec<_>>(), vec![under]);
    let hits = search(&conn, "50%(");
    assert_eq!(hits.iter().map(|h| h.id.clone()).collect::<Vec<_>>(), vec![pct]);
    let hits = search(&conn, "c:\\dir (");
    assert_eq!(hits.iter().map(|h| h.id.clone()).collect::<Vec<_>>(), vec![back]);
}

#[test]
fn search_without_text_returns_recent_notes() {
    let conn = fresh();
    let mut ids = IdSource::new(7);
    let a = create_note(&conn, &mut ids, "a", "1");
    let b = create_note(&conn, &mut ids, "b", "2");
    let c = create_note(&conn, &mut ids, "c", "3");
    let base = load_store(&conn).unwrap().get_notes_all()[2].updated_at;
    answer(&conn, &mut ids, StoreRequest::UpdateNote { id: a.clone(), title: s("a"), body: s("1"), updated_at: Some(base + 30) }).unwrap();
    answer(&conn, &mut ids, StoreRequest::UpdateNote { id: b.clone(), title: s("b"), body: s("2"), updated_at: Some(base + 10) }).unwrap();
    answer(&conn, &mut ids, StoreRequest::UpdateNote { id: c.clone(), title: s("c"), body: s("3"), updated_at: Some(base + 20) }).unwrap();
    for q in [None, Some(s("")), Some(s("   ")), Some(s("\t\n"))] {
        let r = serve_on(&conn, &mut ids, Operation::Search { query: q, limit: None });
        match r {
            Ok(Reply::Notes(hits)) => {
                assert_eq!(hits.iter().map(|h| h.id.clone()).collect::<Vec<_>>(), vec![a.clone(), c.clone(), b.clone()]);
            }
            other => panic!("unexpected {:?}", other),
        }
    }
    let r = serve_on(&conn, &mut ids, Operation::Search { query: None, limit: Some(2) });
    match r {
        Ok(Reply::Notes(hits)) => assert_eq!(hits.len(), 2),
        other => panic!("unexpected {:?}", other),
    }
    let r = serve_on(&conn, &mut ids, Operation::Search { query: None, limit: Some(0) });
    match r {
        Ok(Reply::Notes(hits)) => assert_eq!(hits.len(), 1),
        other => panic!("unexpected {:?}", other),
    }
    let r = serve_on(&conn, &mut ids, Operation::Search { query: Some(s("a OR c")), limit: Some(1) });
    match r {
        Ok(Reply::Notes(hits)) => assert_eq!(hits.len(), 1),
        other => panic!("unexpected {:?}", other),
    }
}

#[test]
fn serve_turns_bad_requests_down_before_the_file() {
    let mut ids = IdSource::new(1);
    let payload = Payload {
        is_object: true,
        id: Field::Missing,
        title: Field::Missing,
        body: Field::Missing,
        folder_id: Field::Missing,
        updated_at: Field::Missing,
        query: Field::Missing,
        limit: Field::Missing,
    };
    // the path cannot be opened, and is never tried
    let path = "/nonexistent-dir-for-anote/sub/anote.db";
    let e = serve(path, &mut ids, "frobnicate", &payload).unwrap_err();
    assert_eq!((e.code, e.message.as_str()), (ErrorCode::Validation, "unknown op 'frobnicate'"));
    let e = serve(path, &mut ids, "get_note", &payload).unwrap_err();
    assert_eq!((e.code, e.message.as_str()), (ErrorCode::Validation, "invalid payload for get_note"));
    let e = serve(path, &mut ids, "ensure_inbox", &payload).unwrap_err();
    assert_eq!(e.code, ErrorCode::Internal);
    assert_eq!(ids.count, 0);
}

#[test]
fn save_store_writes_what_changed() {
    let conn = fresh();
    let empty = load_store(&conn).unwrap();
    let mut st = empty.clone();
    st.create_folder(s("a"), s("Inbox"), None, 10).unwrap();
    st.create_folder(s("b"), s("B"), Some(s("a")), 20).unwrap();
    st.create_folder(s("c"), s("Inbox"), Some(s("b")), 30).unwrap();
    st.create_folder(s("d"), s("D"), None, 5).unwrap();
    st.reparent_folder("d", Some(s("c")), 40).unwrap();
    st.file_note(s("n1"), s("c"), s("t1"), s("b1"), 1).unwrap();
    st.file_note(s("n2"), s("a"), s("t2"), s("b2"), 2).unwrap();
    st.set_pinned("n2", true);
    begin_write(&conn).unwrap();
    assert_eq!(save_store(&conn, &empty, &st), Ok(()));
    commit(&conn).unwrap();
    let back = load_store(&conn).unwrap();
    assert_eq!(back.list_folders(), st.list_folders());
    assert_eq!(back.get_notes_all(), st.get_notes_all());
    // changes and a cascading delete
    let mut next = back.clone();
    next.rename_folder("a", s("Box"), 50).unwrap();
    next.update_note("n2", s("t2x"), s("b2x"), 60).unwrap();
    next.delete_folder("b");
    assert_eq!(next.list_folders().len(), 1);
    begin_write(&conn).unwrap();
    assert_eq!(save_store(&conn, &back, &next), Ok(()));
    commit(&conn).unwrap();
    let last = load_store(&conn).unwrap();
    assert_eq!(last.list_folders(), next.list_folders());
    assert_eq!(last.get_notes_all(), next.get_notes_all());
    assert_eq!(count(&conn, "SELECT COUNT(1) FROM folders"), 1);
    assert_eq!(count(&conn, "SELECT COUNT(1) FROM notes"), 1);
    // nothing changed, nothing written
    begin_write(&conn).unwrap();
    assert_eq!(save_store(&conn, &last, &last), Ok(()));
    rollback(&conn).unwrap();
}

#[test]
fn load_store_mends_rows_that_break_the_rules() {
    let conn = fresh();
    conn.execute_batch(
        "PRAGMA foreign_keys = OFF;
         INSERT INTO folders (id, name, created_at, updated_at, parent_id) VALUES ('a', 'A', 1, 1, 'b');
         INSERT INTO folders (id, name, created_at, updated_at, parent_id) VALUES ('b', 'B', 2, 2, 'a');
         INSERT INTO folders (id, name, created_at, updated_at, parent_id) VALUES ('c', 'C', 3, 3, 'c');
         INSERT INTO folders (id, name, created_at, updated_at, parent_id) VALUES ('e', 'E', 4, 4, 'd');
         INSERT INTO folders (id, name, created_at, updated_at, parent_id) VALUES ('d', 'D', 5, 5, NULL);
         INSERT INTO folders (id, name, created_at, updated_at, parent_id) VALUES ('g', 'G', 6, 6, 'gone');
         INSERT INTO notes VALUES ('n1', 'd', 't1', 'in d', 1, 1, 0, 0);
         INSERT INTO notes VALUES ('n2', 'c', 't2', 'in c', 2, 2, 0, 0);
         INSERT INTO notes VALUES ('n3', 'e', 't3', 'in e', 3, 3, 0, 0);
         INSERT INTO notes VALUES ('n4', 'nowhere', 't4', 'in no folder', 4, 4, 0, 0);
         PRAGMA foreign_keys = ON;",
    )
    .unwrap();
    let g = load_gathered(&conn).unwrap();
    assert_eq!((g.folders_left, g.folders_cut, g.notes_left), (0, 3, 1));
    let parents: Vec<(String, Option<String>)> =
        g.store.list_folders().into_iter().map(|f| (f.id, f.parent_id)).collect();
    // the circle of a and b is cut at a; c and g stand at the root level
    assert_eq!(
        parents,
        vec![
            (s("a"), None),
            (s("b"), Some(s("a"))),
            (s("c"), None),
            (s("e"), Some(s("d"))),
            (s("d"), None),
            (s("g"), None),
        ]
    );
    let notes: Vec<String> = g.store.get_notes_all().into_iter().map(|n| n.id).collect();
    assert_eq!(notes, vec!["n1", "n2", "n3"]);
    assert_eq!(load_store(&conn).unwrap(), g.store);
    // every request is answered: the note in the folder that was its own parent is found
    let mut ids = IdSource::new(1);
    let r = answer(&conn, &mut ids, StoreRequest::GetNote { id: s("n2") });
    match r {
        Ok(Reply::Note(d)) => assert_eq!(d.folder_name, "C"),
        other => panic!("unexpected {:?}", other),
    }
    assert!(matches!(answer(&conn, &mut ids, StoreRequest::EnsureInbox), Ok(Reply::Inbox { .. })));
    // and such a folder can be deleted, with what lies below it
    assert_eq!(change(&conn, Command::DeleteFolder { id: s("c") }), Ok(()));
    assert_eq!(change(&conn, Command::DeleteFolder { id: s("a") }), Ok(()));
    assert_eq!(count(&conn, "SELECT COUNT(1) FROM folders WHERE id IN ('a', 'b', 'c')"), 0);
    assert_eq!(count(&conn, "SELECT COUNT(1) FROM notes WHERE id = 'n2'"), 0);
    // a folder that is written again is written as it was mended
    assert_eq!(change(&conn, Command::RenameFolder { id: s("g"), name: s("Gee") }), Ok(()));
    assert_eq!(count(&conn, "SELECT COUNT(1) FROM folders WHERE id = 'g' AND parent_id IS NULL"), 1);
    // the note without a folder stays in the file as it is
    assert_eq!(count(&conn, "SELECT COUNT(1) FROM notes WHERE id = 'n4'"), 1);
    let g = load_gathered(&conn).unwrap();
    assert_eq!((g.folders_left, g.folders_cut, g.notes_left), (0, 0, 1));
}

#[test]
fn a_row_of_the_wrong_shape_fails_the_read() {
    let conn = broken();
    let mut ids = IdSource::new(1);
    let e = answer(&conn, &mut ids, StoreRequest::EnsureInbox).unwrap_err();
    assert_eq!(e.code, ErrorCode::Internal);
    assert_eq!(e.message, "a row of the file holds no folder or no note");
    // the transaction was dropped: a new one can start
    assert_eq!(begin_write(&conn), Ok(()));
    assert_eq!(rollback(&conn), Ok(()));
}

#[test]
fn run_and_select_pass_values_through() {
    let conn = fresh();
    let n = run(
        &conn,
        "INSERT INTO folders (id, name, created_at, updated_at, parent_id) VALUES (?1, ?2, ?3, ?4, ?5)",
        &vec![text("f1"), text("Work"), SqlValue::Integer(7), SqlValue::Integer(8), SqlValue::Null],
    );
    assert_eq!(n, Ok(1));
    let rows = select(&conn, "SELECT id, name, created_at, updated_at, parent_id, 1.5, x'00' FROM folders", &vec![], 7).unwrap();
    assert_eq!(
        rows,
        vec![vec![
            text("f1"),
            text("Work"),
            SqlValue::Integer(7),
            SqlValue::Integer(8),
            SqlValue::Null,
            SqlValue::Other,
            SqlValue::Other
        ]]
    );
    assert_eq!(run(&conn, "UPDATE folders SET name = ?1 WHERE id = ?2", &vec![text("W"), text("zz")]), Ok(0));
    assert!(run(&conn, "NOT SQL", &vec![]).is_err());
    assert!(select(&conn, "SELECT id FROM folders", &vec![], 2).is_err());
    assert!(run(&conn, "INSERT INTO folders (id, name, created_at) VALUES ('f1', 'again', 1)", &vec![]).is_err());
}

#[test]
fn rows_decode_exactly() {
    let f = Folder { id: s("f"), name: s("N"), created_at: 1, updated_at: 2, parent_id: Some(s("p")) };
    assert_eq!(decode_folder(&folder_params(&f)), Some(f.clone()));
    let root = Folder { parent_id: None, ..f.clone() };
    assert_eq!(folder_params(&root)[4], SqlValue::Null);
    assert_eq!(decode_folder(&folder_params(&root)), Some(root));
    let n = Note {
        id: s("n"),
        folder_id: s("f"),
        title: s("t"),
        body: s("b"),
        created_at: 3,
        updated_at: 4,
        pinned: true,
        sort_order: -2,
    };
    assert_eq!(note_params(&n)[6], SqlValue::Integer(1));
    assert_eq!(decode_note(&note_params(&n)), Some(n.clone()));
    let mut odd = note_params(&n);
    odd[6] = SqlValue::Integer(17);
    assert_eq!(decode_note(&odd), Some(n.clone()));
    odd[6] = SqlValue::Integer(0);
    assert_eq!(decode_note(&odd), Some(Note { pinned: false, ..n.clone() }));
    odd[6] = SqlValue::Null;
    assert_eq!(decode_note(&odd), None);
    assert_eq!(decode_note(&vec![]), None);
    assert_eq!(decode_folder(&note_params(&n)), None);
    let mut bad = folder_params(&f);
    bad[4] = SqlValue::Integer(1);
    assert_eq!(decode_folder(&bad), None);
    bad[4] = SqlValue::Other;
    assert_eq!(decode_folder(&bad), None);
    let hit_row = vec![text("n"), text("f"), text("t"), text("p"), SqlValue::Integer(9), text("F")];
    let hit = NoteHit { id: s("n"), folder_id: s("f"), title: s("t"), preview: s("p"), updated_at: 9, folder_name: s("F") };
    assert_eq!(decode_hit(&hit_row), Some(hit.clone()));
    assert_eq!(decode_hits(&vec![hit_row.clone(), hit_row.clone()]), Some(vec![hit.clone(), hit.clone()]));
    assert_eq!(decode_hits(&vec![hit_row.clone(), vec![]]), None);
    assert_eq!(decode_hits(&vec![]), Some(vec![]));
    // a folder whose parent is missing is taken without it, with the note filed in it
    let g = gathered_of_rows(&vec![folder_params(&f)], &vec![note_params(&n)]).unwrap();
    assert_eq!((g.folders_left, g.folders_cut, g.notes_left), (0, 1, 0));
    assert_eq!(g.store.list_folders(), vec![Folder { parent_id: None, ..f.clone() }]);
    let g = gathered_of_rows(&vec![folder_params(&Folder { parent_id: None, ..f })], &vec![note_params(&n)])
        .unwrap();
    assert_eq!((g.folders_left, g.notes_left), (0, 0));
    assert_eq!(g.store.get_notes_all(), vec![n.clone()]);
    assert!(gathered_of_rows(&vec![vec![]], &vec![]).is_none());
    assert!(gathered_of_rows(&vec![], &vec![vec![text("n")]]).is_none());
}

#[test]
fn search_outcomes() {
    let row = vec![text("n"), text("f"), text("t"), text("p"), SqlValue::Integer(9), text("F")];
    let hit = NoteHit { id: s("n"), folder_id: s("f"), title: s("t"), preview: s("p"), updated_at: 9, folder_name: s("F") };
    assert_eq!(hits_of(Ok(vec![row.clone()])), Ok(vec![hit.clone()]));
    let e = hits_of(Err(s("boom"))).unwrap_err();
    assert_eq!((e.code, e.message.as_str()), (ErrorCode::Internal, "boom"));
    assert_eq!(hits_of(Ok(vec![vec![SqlValue::Null]])).unwrap_err().code, ErrorCode::Internal);
    // the index answered
    assert_eq!(settle_search(Ok(vec![row.clone()]), None), Ok(vec![hit.clone()]));
    assert_eq!(settle_search(Ok(vec![]), Some(Ok(vec![row.clone()]))), Ok(vec![]));
    // the index turned the query down: the substring search answers
    assert_eq!(settle_search(Err(s("fts5: syntax error")), Some(Ok(vec![row.clone()]))), Ok(vec![hit]));
    assert_eq!(settle_search(Err(s("fts5: syntax error")), Some(Ok(vec![]))), Ok(vec![]));
    let e = settle_search(Err(s("fts5: syntax error")), Some(Err(s("disk")))).unwrap_err();
    assert_eq!((e.code, e.message.as_str()), (ErrorCode::Internal, "disk"));
    let e = settle_search(Err(s("first")), None).unwrap_err();
    assert_eq!((e.code, e.message.as_str()), (ErrorCode::Internal, "first"));
}

#[test]
fn only_reading_a_note_takes_no_write_lock() {
    assert!(changes_store(&StoreRequest::EnsureInbox));
    assert!(changes_store(&StoreRequest::CreateNote { title: s(""), body: s(""), folder_id: None }));
    assert!(changes_store(&StoreRequest::UpdateNote { id: s("n"), title: s(""), body: s(""), updated_at: None }));
    assert!(!changes_store(&StoreRequest::GetNote { id: s("n") }));
    let conn = fresh();
    let mut ids = IdSource::new(3);
    let id = create_note(&conn, &mut ids, "t", "b");
    // a read runs in a transaction of its own and leaves none open
    let r = answer(&conn, &mut ids, StoreRequest::GetNote { id });
    assert!(r.is_ok());
    assert!(conn.is_autocommit());
    assert_eq!(begin_write(&conn), Ok(()));
    // inside another transaction it cannot start its own
    let r = answer(&conn, &mut ids, StoreRequest::GetNote { id: s("n1") });
    assert_eq!(r.unwrap_err().code, ErrorCode::Internal);
    rollback(&conn).unwrap();
    let r = serve_on(&conn, &mut ids, Operation::Search { query: Some(s("t")), limit: None });
    assert!(r.is_ok());
    assert!(conn.is_autocommit());
    assert!(read_store(&conn).is_ok());
    assert!(conn.is_autocommit());
    assert_eq!(begin_read(&conn), Ok(()));
    assert!(!conn.is_autocommit());
    assert!(read_store(&conn).is_err());
    rollback(&conn).unwrap();
}

#[test]
fn every_change_has_its_statement() {
    let f = Folder { id: s("f"), name: s("N"), created_at: 1, updated_at: 2, parent_id: None };
    let n = Note {
        id: s("n"),
        folder_id: s("f"),
        title: s("t"),
        body: s("b"),
        created_at: 3,
        updated_at: 4,
        pinned: false,
        sort_order: 0,
    };
    assert_eq!(
        statement_of(&Change::DeleteNote(s("n"))),
        ("DELETE FROM notes WHERE id = ?1", vec![text("n")])
    );
    assert_eq!(
        statement_of(&Change::DeleteFolder(s("f"))),
        ("DELETE FROM folders WHERE id = ?1", vec![text("f")])
    );
    let (sql, params) = statement_of(&Change::PutFolder(f.clone()));
    assert!(sql.starts_with("INSERT INTO folders"));
    assert_eq!(params, folder_params(&f));
    let (sql, params) = statement_of(&Change::PutNote(n.clone()));
    assert!(sql.starts_with("INSERT INTO notes"));
    assert_eq!(params, note_params(&n));
}

#[test]
fn two_connections_share_one_store() {
    // what one store writes, another reads: the round through the rows
    let conn = fresh();
    let mut app = IdSource::new(1);
    let mut tool = IdSource::new(2);
    let a = create_note(&conn, &mut app, "from the app", "x");
    let b = create_note(&conn, &mut tool, "from the tool", "y");
    assert_ne!(a, b);
    let st: Store = load_store(&conn).unwrap();
    assert_eq!(st.get_notes_all().len(), 2);
    assert_eq!(st.list_folders().len(), 1);
}

#[test]
fn commands_change_the_file_or_leave_it() {
    let conn = fresh();
    assert_eq!(
        change(&conn, Command::CreateFolder { id: s("a"), name: s("A"), created_at: 10, parent_id: None }),
        Ok(())
    );
    assert_eq!(
        change(&conn, Command::CreateFolder { id: s("b"), name: s("B"), created_at: 20, parent_id: Some(s("a")) }),
        Ok(())
    );
    assert_eq!(
        change(&conn, Command::UpdateFolder { id: s("a"), name: None, parent_id: Some(Some(s("b"))) }),
        Err(ChangeError::Store(StoreError::Cycle))
    );
    assert_eq!(
        change(&conn, Command::UpdateFolder { id: s("a"), name: None, parent_id: Some(Some(s("a"))) }),
        Err(ChangeError::Store(StoreError::SelfParent))
    );
    let note = Note {
        id: s("n1"),
        folder_id: s("b"),
        title: s("t"),
        body: s("needle in the body"),
        created_at: 1,
        updated_at: 2,
        pinned: false,
        sort_order: 0,
    };
    assert_eq!(change(&conn, Command::InsertNote { note: note.clone() }), Ok(()));
    assert_eq!(change(&conn, Command::InsertNote { note: note.clone() }), Err(ChangeError::Store(StoreError::DuplicateId)));
    assert_eq!(
        change(&conn, Command::UpdateNote { id: s("n1"), title: s("t"), body: s("x"), updated_at: 1 }),
        Err(ChangeError::Store(StoreError::Stale))
    );
    assert_eq!(change(&conn, Command::SetPinned { id: s("n1"), pinned: true }), Ok(()));
    assert_eq!(change(&conn, Command::Reorder { pairs: vec![(s("n1"), 4)] }), Ok(()));
    assert_eq!(
        change(&conn, Command::Reorder { pairs: vec![(s("n1"), 5), (s("n1'--"), 6)] }),
        Err(ChangeError::Store(StoreError::InvalidNoteId))
    );
    assert_eq!(change(&conn, Command::RenameFolder { id: s("b"), name: s("Bee") }), Ok(()));
    let st = load_store(&conn).unwrap();
    assert_eq!(st.get_notes_all(), vec![Note { pinned: true, sort_order: 4, ..note.clone() }]);
    let b = st.list_folders().pop().unwrap();
    assert_eq!((b.name.as_str(), b.created_at), ("Bee", 20));
    assert!(b.updated_at > 20);
    assert_eq!(search(&conn, "needle").len(), 1);
    // a new transaction can start after every outcome
    assert_eq!(
        change(
            &conn,
            Command::Import {
                folders: vec![Folder { id: s("c"), name: s("C"), created_at: 5, updated_at: 5, parent_id: Some(s("zz")) }],
                notes: vec![]
            }
        ),
        Err(ChangeError::Store(StoreError::ParentNotFound))
    );
    assert_eq!(change(&conn, Command::DeleteNote { id: s("n1") }), Ok(()));
    assert_eq!(change(&conn, Command::DeleteFolder { id: s("a") }), Ok(()));
    let st = load_store(&conn).unwrap();
    assert!(st.list_folders().is_empty() && st.get_notes_all().is_empty());
    assert!(search(&conn, "needle").is_empty());
}

fn broken() -> rusqlite::Connection {
    let conn = fresh();
    // a time of creation that is no number: the row holds no folder
    conn.execute_batch(
        "INSERT INTO folders (id, name, created_at, updated_at, parent_id) VALUES ('a', 'A', 'soon', 1, NULL);",
    )
    .unwrap();
    assert_eq!(load_store(&conn), Err(s("a row of the file holds no folder or no note")));
    conn
}

#[test]
fn requests_with_unsafe_ids_never_reach_the_file() {
    // the file cannot be read as a store, so whatever reaches it is an internal error
    let conn = broken();
    let mut ids = IdSource::new(5);
    let e = answer(&conn, &mut ids, StoreRequest::GetNote { id: s("no good") }).unwrap_err();
    assert_eq!((e.code, e.message.as_str()), (ErrorCode::Validation, "invalid note id"));
    let e = answer(
        &conn,
        &mut ids,
        StoreRequest::UpdateNote { id: s(""), title: s("t"), body: s("b"), updated_at: None },
    )
    .unwrap_err();
    assert_eq!((e.code, e.message.as_str()), (ErrorCode::Validation, "invalid note id"));
    let e = answer(
        &conn,
        &mut ids,
        StoreRequest::CreateNote { title: s("t"), body: s("b"), folder_id: Some(s("a/b")) },
    )
    .unwrap_err();
    assert_eq!((e.code, e.message.as_str()), (ErrorCode::Validation, "invalid folder_id"));
    assert_eq!(ids, IdSource { process: 5, count: 0 });
    // a read draws no id either
    let e = answer(&conn, &mut ids, StoreRequest::GetNote { id: s("n1") }).unwrap_err();
    assert_eq!(e.code, ErrorCode::Internal);
    assert_eq!(ids.count, 0);
    // a request that may change the store draws two, whatever comes of it
    let e = answer(&conn, &mut ids, StoreRequest::EnsureInbox).unwrap_err();
    assert_eq!(e.code, ErrorCode::Internal);
    assert_eq!(ids, IdSource { process: 5, count: 2 });
}

#[test]
fn answers_tell_of_what_was_asked() {
    let conn = fresh();
    let mut ids = IdSource::new(0xabc);
    ids.count = 0x10;
    let r = answer(
        &conn,
        &mut ids,
        StoreRequest::CreateNote { title: s("t"), body: s("b"), folder_id: None },
    );
    assert_eq!(ids.count, 0x12);
    let created = match r {
        Ok(Reply::Created(c)) => c,
        other => panic!("unexpected {:?}", other),
    };
    assert!(created.id.ends_with("pabcn10"));
    assert_eq!(created.created_at, created.updated_at);
    let inbox = created.folder_id.clone();
    assert!(inbox.ends_with("pabcn11"));
    let r = answer(
        &conn,
        &mut ids,
        StoreRequest::CreateNote { title: s("t2"), body: s("b2"), folder_id: Some(inbox.clone()) },
    );
    match r {
        Ok(Reply::Created(c)) => {
            assert_eq!(c.folder_id, inbox);
            assert!(c.id.ends_with("pabcn12"));
        }
        other => panic!("unexpected {:?}", other),
    }
    assert_eq!(ids.count, 0x14);
    let r = answer(&conn, &mut ids, StoreRequest::GetNote { id: created.id.clone() });
    match r {
        Ok(Reply::Note(d)) => assert_eq!(d.note.id, created.id),
        other => panic!("unexpected {:?}", other),
    }
    assert_eq!(ids.count, 0x14);
    let r = answer(
        &conn,
        &mut ids,
        StoreRequest::UpdateNote {
            id: created.id.clone(),
            title: s("t"),
            body: s("b"),
            updated_at: Some(created.updated_at + 9),
        },
    );
    assert_eq!(r, Ok(Reply::Updated { id: created.id.clone(), updated_at: created.updated_at + 9 }));
    assert!(matches!(answer(&conn, &mut ids, StoreRequest::EnsureInbox), Ok(Reply::Inbox { .. })));
}

#[test]
fn commands_that_are_settled_early_never_reach_the_file() {
    let conn = broken();
    assert_eq!(change(&conn, Command::Reorder { pairs: vec![] }), Ok(()));
    assert_eq!(
        change(&conn, Command::Reorder { pairs: vec![(s("n1"), 1), (s("n 2"), 2)] }),
        Err(ChangeError::Store(StoreError::InvalidNoteId))
    );
    assert_eq!(
        change(&conn, Command::UpdateNote { id: s("x;y"), title: s(""), body: s(""), updated_at: 1 }),
        Err(ChangeError::Store(StoreError::InvalidNoteId))
    );
    assert_eq!(
        change(&conn, Command::CreateFolder { id: s("f"), name: s("F"), created_at: 1, parent_id: Some(s("f")) }),
        Err(ChangeError::Store(StoreError::SelfParent))
    );
    assert_eq!(
        change(&conn, Command::UpdateFolder { id: s("f"), name: None, parent_id: Some(Some(s("f"))) }),
        Err(ChangeError::Store(StoreError::SelfParent))
    );
    assert_eq!(change(&conn, Command::UpdateFolder { id: s("f"), name: None, parent_id: None }), Ok(()));
    // anything else reaches the file, which cannot be read
    assert_eq!(
        change(&conn, Command::Reorder { pairs: vec![(s("n1"), 1)] }),
        Err(ChangeError::Engine(s("a row of the file holds no folder or no note")))
    );
    assert_eq!(
        change(&conn, Command::UpdateFolder { id: s("f"), name: Some(s("x")), parent_id: Some(Some(s("f"))) }),
        Err(ChangeError::Engine(s("a row of the file holds no folder or no note")))
    );
    assert_eq!(
        change(&conn, Command::DeleteNote { id: s("n1") }),
        Err(ChangeError::Engine(s("a row of the file holds no folder or no note")))
    );
}

#[test]
fn early_outcomes_are_what_the_store_makes_of_the_command() {
    let mut st = Store::new();
    st.create_folder(s("f"), s("F"), None, 1).unwrap();
    let cases = vec![
        Command::Reorder { pairs: vec![] },
        Command::Reorder { pairs: vec![(s("n 2"), 2)] },
        Command::UpdateNote { id: s("x;y"), title: s(""), body: s(""), updated_at: 1 },
        Command::CreateFolder { id: s("g"), name: s("G"), created_at: 1, parent_id: Some(s("g")) },
        Command::UpdateFolder { id: s("f"), name: None, parent_id: Some(Some(s("f"))) },
        Command::UpdateFolder { id: s("nope"), name: None, parent_id: None },
    ];
    for c in cases {
        let early = settle_early(&c);
        assert!(early.is_some());
        let before = st.clone();
        assert_eq!(Some(st.run(c, 9)), early);
        assert_eq!(st, before);
    }
    assert_eq!(settle_early(&Command::DeleteNote { id: s("n") }), None);
    assert_eq!(settle_early(&Command::Reorder { pairs: vec![(s("n"), 1)] }), None);
    assert_eq!(
        settle_early(&Command::UpdateFolder { id: s("f"), name: Some(s("x")), parent_id: Some(Some(s("f"))) }),
        None
    );
    assert_eq!(
        settle_early(&Command::UpdateFolder { id: s("f"), name: None, parent_id: Some(None) }),
        None
    );
}

#[test]
fn an_empty_plan_and_an_unchanged_store_ask_nothing_of_the_engine() {
    let conn = fresh();
    assert_eq!(run_actions(&conn, &vec![]), Ok(()));
    let st = load_store(&conn).unwrap();
    conn.execute_batch("DROP TABLE note_tags; DROP TABLE notes; DROP TABLE folders;").unwrap();
    assert!(run(&conn, "DELETE FROM notes WHERE id = ?1", &vec![text("n")]).is_err());
    assert_eq!(save_store(&conn, &st, &st.clone()), Ok(()));
    let mut other = st.clone();
    other.create_folder(s("a"), s("A"), None, 1).unwrap();
    assert!(save_store(&conn, &st, &other).is_err());
    assert_eq!(run_actions(&conn, &vec![]), Ok(()));
}

#[test]
fn change_errors_have_their_words() {
    assert_eq!(ChangeError::Store(StoreError::Stale).message(), "stale note update rejected");
    assert_eq!(ChangeError::Store(StoreError::Cycle).message(), "cannot create circular folder reference");
    assert_eq!(ChangeError::Engine(s("disk full")).message(), "disk full");
}

#[test]
fn a_search_with_text_returns_no_more_than_the_limit() {
    let conn = fresh();
    let mut ids = IdSource::new(7);
    for i in 0..6 {
        create_note(&conn, &mut ids, &format!("note {}", i), "common (word) here");
    }
    let store = load_store(&conn).unwrap();
    for (limit, want) in [(Some(2), 2), (Some(0), 1), (Some(-9), 1), (Some(6), 6), (Some(900), 6), (None, 6)] {
        let hits = search_notes(&conn, &store, Some(s("common")), limit).unwrap();
        assert_eq!(hits.len(), want);
        // the substring search keeps the limit as well
        let hits = search_notes(&conn, &store, Some(s("mmon (wor")), limit).unwrap();
        assert_eq!(hits.len(), want);
    }
    let hits = search_notes(&conn, &store, Some(s("mmon (wor%")), Some(3)).unwrap();
    assert!(hits.is_empty());
}
