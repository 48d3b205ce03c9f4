use anote_store::bridge::{
    apply, check_early, internal_error, parse_request, read_optional_int, read_optional_text,
    read_required_text, read_text_or_empty, Field, OpName, Operation, Payload, Reply,
    RequestError, StoreRequest,
};
use anote_store::model::{ErrorCode, StoreError};
use anote_store::store::Store;

fn s(x: &str) -> String {
    x.to_string()
}

fn object() -> Payload {
    Payload {
        is_object: true,
        id: Field::Missing,
        title: Field::Missing,
        body: Field::Missing,
        folder_id: Field::Missing,
        updated_at: Field::Missing,
        query: Field::Missing,
        limit: Field::Missing,
    }
}

fn not_an_object() -> Payload {
    Payload { is_object: false, ..object() }
}

#[test]
fn ensure_inbox_reads_no_payload() {
    assert_eq!(
        parse_request("ensure_inbox", &not_an_object()),
        Ok(Operation::Store(StoreRequest::EnsureInbox))
    );
    let mut p = object();
    p.id = Field::Other;
    assert_eq!(parse_request("ensure_inbox", &p), Ok(Operation::Store(StoreRequest::EnsureInbox)));
}

#[test]
fn create_note_payloads() {
    assert_eq!(
        parse_request("create_note", &object()),
        Ok(Operation::Store(StoreRequest::CreateNote { title: s(""), body: s(""), folder_id: None }))
    );
    let mut p = object();
    p.title = Field::Text(s("T"));
    p.body = Field::Text(s("B"));
    p.folder_id = Field::Text(s("f1"));
    assert_eq!(
        parse_request("create_note", &p),
        Ok(Operation::Store(StoreRequest::CreateNote {
            title: s("T"),
            body: s("B"),
            folder_id: Some(s("f1"))
        }))
    );
    p.folder_id = Field::Null;
    assert_eq!(
        parse_request("create_note", &p),
        Ok(Operation::Store(StoreRequest::CreateNote { title: s("T"), body: s("B"), folder_id: None }))
    );
    let bad = Err(RequestError::InvalidPayload(OpName::CreateNote));
    p.folder_id = Field::Integer(3);
    assert_eq!(parse_request("create_note", &p), bad);
    p.folder_id = Field::Missing;
    p.title = Field::Null;
    assert_eq!(parse_request("create_note", &p), bad);
    p.title = Field::Missing;
    p.body = Field::Integer(1);
    assert_eq!(parse_request("create_note", &p), bad);
    assert_eq!(parse_request("create_note", &not_an_object()), bad);
}

#[test]
fn update_note_payloads() {
    let bad = Err(RequestError::InvalidPayload(OpName::UpdateNote));
    assert_eq!(parse_request("update_note", &object()), bad);
    let mut p = object();
    p.id = Field::Text(s("n1"));
    assert_eq!(
        parse_request("update_note", &p),
        Ok(Operation::Store(StoreRequest::UpdateNote {
            id: s("n1"),
            title: s(""),
            body: s(""),
            updated_at: None
        }))
    );
    p.updated_at = Field::Integer(42);
    p.title = Field::Text(s("t"));
    assert_eq!(
        parse_request("update_note", &p),
        Ok(Operation::Store(StoreRequest::UpdateNote {
            id: s("n1"),
            title: s("t"),
            body: s(""),
            updated_at: Some(42)
        }))
    );
    p.updated_at = Field::Text(s("42"));
    assert_eq!(parse_request("update_note", &p), bad);
    p.updated_at = Field::Other;
    assert_eq!(parse_request("update_note", &p), bad);
    p.updated_at = Field::Null;
    p.id = Field::Null;
    assert_eq!(parse_request("update_note", &p), bad);
    p.id = Field::Integer(1);
    assert_eq!(parse_request("update_note", &p), bad);
    assert_eq!(parse_request("update_note", &not_an_object()), bad);
}

#[test]
fn search_and_get_payloads() {
    assert_eq!(
        parse_request("search_notes", &object()),
        Ok(Operation::Search { query: None, limit: None })
    );
    let mut p = object();
    p.query = Field::Text(s("milk"));
    p.limit = Field::Integer(5);
    assert_eq!(
        parse_request("search_notes", &p),
        Ok(Operation::Search { query: Some(s("milk")), limit: Some(5) })
    );
    p.limit = Field::Text(s("5"));
    assert_eq!(
        parse_request("search_notes", &p),
        Err(RequestError::InvalidPayload(OpName::SearchNotes))
    );
    p.limit = Field::Null;
    p.query = Field::Integer(1);
    assert_eq!(
        parse_request("search_notes", &p),
        Err(RequestError::InvalidPayload(OpName::SearchNotes))
    );
    assert_eq!(
        parse_request("search_notes", &not_an_object()),
        Err(RequestError::InvalidPayload(OpName::SearchNotes))
    );
    assert_eq!(
        parse_request("get_note", &object()),
        Err(RequestError::InvalidPayload(OpName::GetNote))
    );
    assert_eq!(
        parse_request("get_note", &not_an_object()),
        Err(RequestError::InvalidPayload(OpName::GetNote))
    );
    let mut g = object();
    g.id = Field::Text(s("n9"));
    assert_eq!(
        parse_request("get_note", &g),
        Ok(Operation::Store(StoreRequest::GetNote { id: s("n9") }))
    );
}

#[test]
fn unknown_operations() {
    for op in ["", "delete_note", "ENSURE_INBOX", "create_note ", "drop"] {
        assert_eq!(parse_request(op, &object()), Err(RequestError::UnknownOp(s(op))));
    }
    let e = RequestError::UnknownOp(s("frobnicate"));
    assert_eq!(e.message(), "unknown op 'frobnicate'");
    let r = e.report();
    assert_eq!(r.code, ErrorCode::Validation);
    assert_eq!(r.message, "unknown op 'frobnicate'");
    let p = RequestError::InvalidPayload(OpName::UpdateNote);
    assert_eq!(p.message(), "invalid payload for update_note");
    assert_eq!(RequestError::InvalidPayload(OpName::CreateNote).message(), "invalid payload for create_note");
    assert_eq!(RequestError::InvalidPayload(OpName::SearchNotes).message(), "invalid payload for search_notes");
    assert_eq!(RequestError::InvalidPayload(OpName::GetNote).message(), "invalid payload for get_note");
    assert_eq!(p.report().code.name(), "VALIDATION");
}

#[test]
fn field_readers() {
    assert_eq!(read_required_text(&Field::Text(s("x"))), Some(s("x")));
    assert_eq!(read_required_text(&Field::Missing), None);
    assert_eq!(read_required_text(&Field::Null), None);
    assert_eq!(read_text_or_empty(&Field::Missing), Some(s("")));
    assert_eq!(read_text_or_empty(&Field::Null), None);
    assert_eq!(read_text_or_empty(&Field::Other), None);
    assert_eq!(read_optional_text(&Field::Null), Some(None));
    assert_eq!(read_optional_text(&Field::Missing), Some(None));
    assert_eq!(read_optional_text(&Field::Text(s("y"))), Some(Some(s("y"))));
    assert_eq!(read_optional_text(&Field::Integer(1)), None);
    assert_eq!(read_optional_int(&Field::Integer(-7)), Some(Some(-7)));
    assert_eq!(read_optional_int(&Field::Null), Some(None));
    assert_eq!(read_optional_int(&Field::Text(s("7"))), None);
    assert_eq!(read_optional_int(&Field::Other), None);
}

#[test]
fn error_reports() {
    let r = StoreError::Stale.report();
    assert_eq!(r.code, ErrorCode::Conflict);
    assert_eq!(r.message, "stale note update rejected");
    assert_eq!(r.code.name(), "CONFLICT");
    let i = internal_error(s("disk I/O error"));
    assert_eq!(i.code, ErrorCode::Internal);
    assert_eq!(i.message, "disk I/O error");
    assert_eq!(i.code.name(), "INTERNAL");
    assert_eq!(StoreError::SelfParent.report().message, "folder cannot be its own parent");
    assert_eq!(StoreError::Cycle.report().message, "cannot create circular folder reference");
    assert_eq!(StoreError::Cycle.report().code, ErrorCode::Validation);
}

#[test]
fn apply_answers_store_requests() {
    let mut st = Store::new();
    let r = apply(&mut st, StoreRequest::EnsureInbox, s("n0"), s("i1"), 10);
    assert_eq!(r, Ok(Reply::Inbox { folder_id: s("i1") }));
    let r = apply(
        &mut st,
        StoreRequest::CreateNote { title: s("T"), body: s("B"), folder_id: None },
        s("n1"),
        s("i2"),
        20,
    );
    match r {
        Ok(Reply::Created(c)) => {
            assert_eq!(c.id, "n1");
            assert_eq!(c.folder_id, "i1");
            assert_eq!((c.created_at, c.updated_at), (20, 20));
        }
        other => panic!("unexpected {:?}", other),
    }
    // an update without a time takes the clock's
    let r = apply(
        &mut st,
        StoreRequest::UpdateNote { id: s("n1"), title: s("T2"), body: s("B2"), updated_at: None },
        s("x"),
        s("y"),
        30,
    );
    assert_eq!(r, Ok(Reply::Updated { id: s("n1"), updated_at: 30 }));
    let r = apply(
        &mut st,
        StoreRequest::UpdateNote { id: s("n1"), title: s("T3"), body: s("B3"), updated_at: Some(25) },
        s("x"),
        s("y"),
        40,
    );
    assert_eq!(r, Err(StoreError::Stale));
    let r = apply(&mut st, StoreRequest::GetNote { id: s("n1") }, s("x"), s("y"), 50);
    match r {
        Ok(Reply::Note(d)) => {
            assert_eq!(d.note.title, "T2");
            assert_eq!(d.note.body, "B2");
            assert_eq!(d.note.updated_at, 30);
            assert_eq!(d.note.created_at, 20);
            assert_eq!(d.folder_name, "Inbox");
        }
        other => panic!("unexpected {:?}", other),
    }
    let r = apply(&mut st, StoreRequest::GetNote { id: s("zz") }, s("x"), s("y"), 50);
    assert_eq!(r, Err(StoreError::NoteNotFound));
    let r = apply(
        &mut st,
        StoreRequest::CreateNote { title: s("T"), body: s("B"), folder_id: Some(s("bad id")) },
        s("n2"),
        s("i2"),
        20,
    );
    assert_eq!(r, Err(StoreError::InvalidFolderId));
}

#[test]
fn every_store_error_has_its_class_and_words() {
    let all = [
        (StoreError::InvalidFolderId, ErrorCode::Validation, "invalid folder_id"),
        (StoreError::InvalidNoteId, ErrorCode::Validation, "invalid note id"),
        (StoreError::FolderNotFound, ErrorCode::Validation, "folder not found"),
        (StoreError::ParentNotFound, ErrorCode::Validation, "parent folder not found"),
        (StoreError::SelfParent, ErrorCode::Validation, "folder cannot be its own parent"),
        (StoreError::Cycle, ErrorCode::Validation, "cannot create circular folder reference"),
        (StoreError::NoteNotFound, ErrorCode::Validation, "note not found"),
        (StoreError::Stale, ErrorCode::Conflict, "stale note update rejected"),
        (StoreError::DuplicateId, ErrorCode::Internal, "id is already in use"),
        (
            StoreError::DuplicateRootName,
            ErrorCode::Validation,
            "a root-level folder has this name already",
        ),
        (StoreError::OrderOverflow, ErrorCode::Internal, "sort order cannot grow"),
    ];
    for (e, code, words) in all {
        assert_eq!(e.code(), code);
        assert_eq!(e.message(), words);
        let r = e.report();
        assert_eq!((r.code, r.message.as_str()), (code, words));
    }
    assert_eq!(OpName::CreateNote.name(), "create_note");
    assert_eq!(OpName::UpdateNote.name(), "update_note");
    assert_eq!(OpName::SearchNotes.name(), "search_notes");
    assert_eq!(OpName::GetNote.name(), "get_note");
}

#[test]
fn requests_with_unsafe_ids_are_turned_down_early() {
    assert_eq!(check_early(&StoreRequest::EnsureInbox), None);
    assert_eq!(check_early(&StoreRequest::GetNote { id: s("abc") }), None);
    assert_eq!(check_early(&StoreRequest::GetNote { id: s("a b") }), Some(StoreError::InvalidNoteId));
    assert_eq!(check_early(&StoreRequest::GetNote { id: s("") }), Some(StoreError::InvalidNoteId));
    assert_eq!(
        check_early(&StoreRequest::UpdateNote { id: s("a'"), title: s(""), body: s(""), updated_at: None }),
        Some(StoreError::InvalidNoteId)
    );
    assert_eq!(
        check_early(&StoreRequest::UpdateNote { id: s("a1"), title: s(""), body: s(""), updated_at: None }),
        None
    );
    assert_eq!(
        check_early(&StoreRequest::CreateNote { title: s(""), body: s(""), folder_id: Some(s("f-1")) }),
        Some(StoreError::InvalidFolderId)
    );
    assert_eq!(
        check_early(&StoreRequest::CreateNote { title: s(""), body: s(""), folder_id: Some(s("f1")) }),
        None
    );
    assert_eq!(
        check_early(&StoreRequest::CreateNote { title: s("a b"), body: s(""), folder_id: None }),
        None
    );
    // every store turns such a request down for the same reason
    let mut st = Store::new();
    let r = apply(&mut st, StoreRequest::GetNote { id: s("a b") }, s("x"), s("y"), 1);
    assert_eq!(r, Err(StoreError::InvalidNoteId));
}
