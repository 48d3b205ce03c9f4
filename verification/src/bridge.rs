//! The adapter for external clients: one request in, one response out.
//!
//! A request names an operation and carries a payload. The payload is
//! checked against the shape that the operation asks for before anything
//! else happens; an unknown operation or a payload of the wrong shape is a
//! validation error.

use crate::folders::folder_of;
use crate::forest::has_folder;
use crate::ident::{is_safe_id, safe_id};
use crate::inbox::{
    create_note_error, create_note_leaves, has_inbox, inbox_id, note_stage, note_target, one_inbox,
    with_inbox, Created,
};
use crate::model::{opt_view, ErrorCode, StoreError};
use crate::notes::{filed, fresh_note, update_note_error, updated};
use crate::reading::{get_note_error, NoteDetail};
use crate::search::NoteHit;
use crate::store::{note_index, Store, StoreView};
use vstd::prelude::*;

verus! {

/// One member of a payload, as far as the adapter reads it.
#[derive(Clone, Debug, PartialEq, Eq)]
pub enum Field {
    /// The payload has no such member.
    Missing,
    /// The member is `null`.
    Null,
    Text(String),
    /// The member is a whole number that fits 64 bits with a sign.
    Integer(i64),
    /// The member holds anything else.
    Other,
}

/// What a member holds, as a mathematical value.
pub enum FieldView {
    Missing,
    Null,
    Text(Seq<char>),
    Integer(i64),
    Other,
}

impl View for Field {
    type V = FieldView;

    open spec fn view(&self) -> FieldView {
        match self {
            Field::Missing => FieldView::Missing,
            Field::Null => FieldView::Null,
            Field::Text(s) => FieldView::Text(s@),
            Field::Integer(i) => FieldView::Integer(*i),
            Field::Other => FieldView::Other,
        }
    }
}

/// The payload of a request: whether it is an object, and the members that
/// some operation reads.
#[derive(Clone, Debug, PartialEq, Eq)]
pub struct Payload {
    pub is_object: bool,
    pub id: Field,
    pub title: Field,
    pub body: Field,
    pub folder_id: Field,
    pub updated_at: Field,
    pub query: Field,
    pub limit: Field,
}

/// What a payload holds, as mathematical values.
pub struct PayloadView {
    pub is_object: bool,
    pub id: FieldView,
    pub title: FieldView,
    pub body: FieldView,
    pub folder_id: FieldView,
    pub updated_at: FieldView,
    pub query: FieldView,
    pub limit: FieldView,
}

impl View for Payload {
    type V = PayloadView;

    open spec fn view(&self) -> PayloadView {
        PayloadView {
            is_object: self.is_object,
            id: self.id@,
            title: self.title@,
            body: self.body@,
            folder_id: self.folder_id@,
            updated_at: self.updated_at@,
            query: self.query@,
            limit: self.limit@,
        }
    }
}

/// A text that has to be there.
pub open spec fn required_text(f: FieldView) -> Option<Seq<char>> {
    match f {
        FieldView::Text(s) => Some(s),
        _ => None,
    }
}

/// A text that is empty where the member is missing.
pub open spec fn text_or_empty(f: FieldView) -> Option<Seq<char>> {
    match f {
        FieldView::Missing => Some(Seq::empty()),
        FieldView::Text(s) => Some(s),
        _ => None,
    }
}

/// A text that may be missing or `null`.
pub open spec fn optional_text(f: FieldView) -> Option<Option<Seq<char>>> {
    match f {
        FieldView::Missing => Some(None),
        FieldView::Null => Some(None),
        FieldView::Text(s) => Some(Some(s)),
        _ => None,
    }
}

/// A whole number that may be missing or `null`.
pub open spec fn optional_int(f: FieldView) -> Option<Option<i64>> {
    match f {
        FieldView::Missing => Some(None),
        FieldView::Null => Some(None),
        FieldView::Integer(i) => Some(Some(i)),
        _ => None,
    }
}

/// A text that has to be there.
pub fn read_required_text(f: &Field) -> (r: Option<String>)
    ensures
        opt_view(r) == required_text(f@),
{
    match f {
        Field::Text(s) => Some(s.clone()),
        _ => None,
    }
}

/// A text that is empty where the member is missing.
pub fn read_text_or_empty(f: &Field) -> (r: Option<String>)
    ensures
        opt_view(r) == text_or_empty(f@),
{
    match f {
        Field::Missing => Some(String::new()),
        Field::Text(s) => Some(s.clone()),
        _ => None,
    }
}

/// A text that may be missing or `null`.
pub fn read_optional_text(f: &Field) -> (r: Option<Option<String>>)
    ensures
        match r {
            Some(t) => optional_text(f@) == Some(opt_view(t)),
            None => optional_text(f@) is None,
        },
{
    match f {
        Field::Missing => Some(None),
        Field::Null => Some(None),
        Field::Text(s) => Some(Some(s.clone())),
        _ => None,
    }
}

/// A whole number that may be missing or `null`.
pub fn read_optional_int(f: &Field) -> (r: Option<Option<i64>>)
    ensures
        r == optional_int(f@),
{
    match f {
        Field::Missing => Some(None),
        Field::Null => Some(None),
        Field::Integer(i) => Some(Some(*i)),
        _ => None,
    }
}

/// The operations that read a payload.
#[derive(Clone, Copy, Debug, PartialEq, Eq, Structural)]
pub enum OpName {
    CreateNote,
    UpdateNote,
    SearchNotes,
    GetNote,
}

/// A request that the store answers.
#[derive(Clone, Debug, PartialEq, Eq)]
pub enum StoreRequest {
    EnsureInbox,
    CreateNote { title: String, body: String, folder_id: Option<String> },
    UpdateNote { id: String, title: String, body: String, updated_at: Option<i64> },
    GetNote { id: String },
}

/// What a store request holds, as mathematical values.
pub enum StoreRequestView {
    EnsureInbox,
    CreateNote { title: Seq<char>, body: Seq<char>, folder_id: Option<Seq<char>> },
    UpdateNote { id: Seq<char>, title: Seq<char>, body: Seq<char>, updated_at: Option<i64> },
    GetNote { id: Seq<char> },
}

impl View for StoreRequest {
    type V = StoreRequestView;

    open spec fn view(&self) -> StoreRequestView {
        match self {
            StoreRequest::EnsureInbox => StoreRequestView::EnsureInbox,
            StoreRequest::CreateNote { title, body, folder_id } => StoreRequestView::CreateNote {
                title: title@,
                body: body@,
                folder_id: opt_view(*folder_id),
            },
            StoreRequest::UpdateNote { id, title, body, updated_at } => StoreRequestView::UpdateNote {
                id: id@,
                title: title@,
                body: body@,
                updated_at: *updated_at,
            },
            StoreRequest::GetNote { id } => StoreRequestView::GetNote { id: id@ },
        }
    }
}

/// A request as it was understood.
#[derive(Clone, Debug, PartialEq, Eq)]
pub enum Operation {
    Store(StoreRequest),
    Search { query: Option<String>, limit: Option<i64> },
}

/// What a request holds, as mathematical values.
pub enum OperationView {
    Store(StoreRequestView),
    Search { query: Option<Seq<char>>, limit: Option<i64> },
}

impl View for Operation {
    type V = OperationView;

    open spec fn view(&self) -> OperationView {
        match self {
            Operation::Store(r) => OperationView::Store(r@),
            Operation::Search { query, limit } => OperationView::Search {
                query: opt_view(*query),
                limit: *limit,
            },
        }
    }
}

/// Why a request was not understood.
#[derive(Clone, Debug, PartialEq, Eq)]
pub enum RequestError {
    /// No operation has the name.
    UnknownOp(String),
    /// The payload has not the shape that the operation asks for.
    InvalidPayload(OpName),
}

/// Why a request was not understood, as mathematical values.
pub enum RequestErrorView {
    UnknownOp(Seq<char>),
    InvalidPayload(OpName),
}

impl View for RequestError {
    type V = RequestErrorView;

    open spec fn view(&self) -> RequestErrorView {
        match self {
            RequestError::UnknownOp(s) => RequestErrorView::UnknownOp(s@),
            RequestError::InvalidPayload(n) => RequestErrorView::InvalidPayload(*n),
        }
    }
}

/// The request that an operation name and a payload make.
///
/// `ensure_inbox` reads no payload. The others ask for an object:
/// `create_note` reads title and body, each a text or missing, and
/// folder_id, a text, `null` or missing; `update_note` reads id, a text,
/// title and body as before, and updated_at, a whole number, `null` or
/// missing; `search_notes` reads query, a text, `null` or missing, and
/// limit, a whole number, `null` or missing; `get_note` reads id, a text.
pub open spec fn understood(op: Seq<char>, p: PayloadView) -> Result<OperationView, RequestErrorView> {
    if op == "ensure_inbox"@ {
        Ok(OperationView::Store(StoreRequestView::EnsureInbox))
    } else if op == "create_note"@ {
        if p.is_object && text_or_empty(p.title) is Some && text_or_empty(p.body) is Some
            && optional_text(p.folder_id) is Some {
            Ok(
                OperationView::Store(
                    StoreRequestView::CreateNote {
                        title: text_or_empty(p.title)->0,
                        body: text_or_empty(p.body)->0,
                        folder_id: optional_text(p.folder_id)->0,
                    },
                ),
            )
        } else {
            Err(RequestErrorView::InvalidPayload(OpName::CreateNote))
        }
    } else if op == "update_note"@ {
        if p.is_object && required_text(p.id) is Some && text_or_empty(p.title) is Some
            && text_or_empty(p.body) is Some && optional_int(p.updated_at) is Some {
            Ok(
                OperationView::Store(
                    StoreRequestView::UpdateNote {
                        id: required_text(p.id)->0,
                        title: text_or_empty(p.title)->0,
                        body: text_or_empty(p.body)->0,
                        updated_at: optional_int(p.updated_at)->0,
                    },
                ),
            )
        } else {
            Err(RequestErrorView::InvalidPayload(OpName::UpdateNote))
        }
    } else if op == "search_notes"@ {
        if p.is_object && optional_text(p.query) is Some && optional_int(p.limit) is Some {
            Ok(
                OperationView::Search {
                    query: optional_text(p.query)->0,
                    limit: optional_int(p.limit)->0,
                },
            )
        } else {
            Err(RequestErrorView::InvalidPayload(OpName::SearchNotes))
        }
    } else if op == "get_note"@ {
        if p.is_object && required_text(p.id) is Some {
            Ok(OperationView::Store(StoreRequestView::GetNote { id: required_text(p.id)->0 }))
        } else {
            Err(RequestErrorView::InvalidPayload(OpName::GetNote))
        }
    } else {
        Err(RequestErrorView::UnknownOp(op))
    }
}

/// Whether two texts are the same.
fn same_text(a: &str, b: &str) -> (r: bool)
    ensures
        r == (a@ == b@),
{
    a.to_owned() == b.to_owned()
}

/// Reads a request. No storage is touched.
pub fn parse_request(op: &str, payload: &Payload) -> (r: Result<Operation, RequestError>)
    ensures
        match r {
            Ok(o) => understood(op@, payload@) == Ok::<OperationView, RequestErrorView>(o@),
            Err(e) => understood(op@, payload@) == Err::<OperationView, RequestErrorView>(e@),
        },
{
    if same_text(op, "ensure_inbox") {
        return Ok(Operation::Store(StoreRequest::EnsureInbox));
    }
    if same_text(op, "create_note") {
        if !payload.is_object {
            return Err(RequestError::InvalidPayload(OpName::CreateNote));
        }
        let title = read_text_or_empty(&payload.title);
        let body = read_text_or_empty(&payload.body);
        let folder_id = read_optional_text(&payload.folder_id);
        return match (title, body, folder_id) {
            (Some(title), Some(body), Some(folder_id)) => Ok(
                Operation::Store(StoreRequest::CreateNote { title, body, folder_id }),
            ),
            _ => Err(RequestError::InvalidPayload(OpName::CreateNote)),
        };
    }
    if same_text(op, "update_note") {
        if !payload.is_object {
            return Err(RequestError::InvalidPayload(OpName::UpdateNote));
        }
        let id = read_required_text(&payload.id);
        let title = read_text_or_empty(&payload.title);
        let body = read_text_or_empty(&payload.body);
        let updated_at = read_optional_int(&payload.updated_at);
        return match (id, title, body, updated_at) {
            (Some(id), Some(title), Some(body), Some(updated_at)) => Ok(
                Operation::Store(StoreRequest::UpdateNote { id, title, body, updated_at }),
            ),
            _ => Err(RequestError::InvalidPayload(OpName::UpdateNote)),
        };
    }
    if same_text(op, "search_notes") {
        if !payload.is_object {
            return Err(RequestError::InvalidPayload(OpName::SearchNotes));
        }
        let query = read_optional_text(&payload.query);
        let limit = read_optional_int(&payload.limit);
        return match (query, limit) {
            (Some(query), Some(limit)) => Ok(Operation::Search { query, limit }),
            _ => Err(RequestError::InvalidPayload(OpName::SearchNotes)),
        };
    }
    if same_text(op, "get_note") {
        if !payload.is_object {
            return Err(RequestError::InvalidPayload(OpName::GetNote));
        }
        return match read_required_text(&payload.id) {
            Some(id) => Ok(Operation::Store(StoreRequest::GetNote { id })),
            None => Err(RequestError::InvalidPayload(OpName::GetNote)),
        };
    }
    Err(RequestError::UnknownOp(op.to_owned()))
}

impl OpName {
    /// The name of the operation on the wire.
    pub open spec fn spec_name(self) -> Seq<char> {
        match self {
            OpName::CreateNote => "create_note"@,
            OpName::UpdateNote => "update_note"@,
            OpName::SearchNotes => "search_notes"@,
            OpName::GetNote => "get_note"@,
        }
    }

    /// The name of the operation on the wire.
    pub fn name(&self) -> (r: &'static str)
        ensures
            r@ == self.spec_name(),
    {
        match self {
            OpName::CreateNote => "create_note",
            OpName::UpdateNote => "update_note",
            OpName::SearchNotes => "search_notes",
            OpName::GetNote => "get_note",
        }
    }
}

/// An error as a client is told it.
#[derive(Clone, Debug, PartialEq, Eq)]
pub struct BridgeError {
    pub code: ErrorCode,
    pub message: String,
}

impl RequestErrorView {
    /// The words for `self`.
    pub open spec fn spec_message(self) -> Seq<char> {
        match self {
            RequestErrorView::UnknownOp(op) => "unknown op '"@ + op + "'"@,
            RequestErrorView::InvalidPayload(n) => "invalid payload for "@ + n.spec_name(),
        }
    }
}

impl RequestError {
    /// The words for `self`.
    pub fn message(&self) -> (r: String)
        ensures
            r@ == self@.spec_message(),
    {
        match self {
            RequestError::UnknownOp(op) => {
                let mut out = "unknown op '".to_owned();
                out.append(op.as_str());
                out.append("'");
                out
            },
            RequestError::InvalidPayload(n) => {
                let mut out = "invalid payload for ".to_owned();
                out.append(n.name());
                out
            },
        }
    }

    /// The validation error that tells a client of `self`.
    pub fn report(&self) -> (r: BridgeError)
        ensures
            r.code == ErrorCode::Validation,
            r.message@ == self@.spec_message(),
    {
        BridgeError { code: ErrorCode::Validation, message: self.message() }
    }
}

impl StoreError {
    /// The error that tells a client of `self`.
    pub fn report(&self) -> (r: BridgeError)
        ensures
            r.code == self.spec_code(),
            r.message@ == self.spec_message(),
    {
        BridgeError { code: self.code(), message: self.message() }
    }
}

/// The internal error with the engine's words.
pub fn internal_error(words: String) -> (r: BridgeError)
    ensures
        r.code == ErrorCode::Internal,
        r.message@ == words@,
{
    BridgeError { code: ErrorCode::Internal, message: words }
}

/// What a client is told after a success.
#[derive(Clone, Debug, PartialEq, Eq)]
pub enum Reply {
    Inbox { folder_id: String },
    Created(Created),
    Updated { id: String, updated_at: i64 },
    Note(NoteDetail),
    Notes(Vec<NoteHit>),
}

/// Why a store request is turned down whatever the store holds, if it is:
/// an id that it names is not safe. Such a request never reaches storage.
pub open spec fn early_error(request: StoreRequestView) -> Option<StoreError> {
    match request {
        StoreRequestView::EnsureInbox => None,
        StoreRequestView::CreateNote { title, body, folder_id } => if folder_id is Some && !safe_id(
            folder_id->0,
        ) {
            Some(StoreError::InvalidFolderId)
        } else {
            None
        },
        StoreRequestView::UpdateNote { id, title, body, updated_at } => if !safe_id(id) {
            Some(StoreError::InvalidNoteId)
        } else {
            None
        },
        StoreRequestView::GetNote { id } => if !safe_id(id) {
            Some(StoreError::InvalidNoteId)
        } else {
            None
        },
    }
}

/// Why a store request is turned down whatever the store holds, if it is.
pub fn check_early(request: &StoreRequest) -> (r: Option<StoreError>)
    ensures
        r == early_error(request@),
{
    match request {
        StoreRequest::EnsureInbox => None,
        StoreRequest::CreateNote { title, body, folder_id } => match folder_id {
            Some(f) => if !is_safe_id(f.as_str()) {
                Some(StoreError::InvalidFolderId)
            } else {
                None
            },
            None => None,
        },
        StoreRequest::UpdateNote { id, title, body, updated_at } => if !is_safe_id(id.as_str()) {
            Some(StoreError::InvalidNoteId)
        } else {
            None
        },
        StoreRequest::GetNote { id } => if !is_safe_id(id.as_str()) {
            Some(StoreError::InvalidNoteId)
        } else {
            None
        },
    }
}

/// Why a request is turned down whatever the store holds, if it is. A
/// search never is.
pub open spec fn operation_early_error(operation: OperationView) -> Option<StoreError> {
    match operation {
        OperationView::Store(request) => early_error(request),
        OperationView::Search { query, limit } => None,
    }
}

/// Why a request is turned down whatever the store holds, if it is.
pub fn check_operation_early(operation: &Operation) -> (r: Option<StoreError>)
    ensures
        r == operation_early_error(operation@),
{
    match operation {
        Operation::Store(request) => check_early(request),
        Operation::Search { query, limit } => None,
    }
}

/// A request that is turned down before storage is turned down by every
/// store, for the same reason.
pub proof fn lemma_early_error_stands(
    s: StoreView,
    request: StoreRequestView,
    note_id: Seq<char>,
    inbox: Seq<char>,
    now: i64,
)
    requires
        early_error(request) is Some,
    ensures
        match request {
            StoreRequestView::EnsureInbox => false,
            StoreRequestView::CreateNote { title, body, folder_id } => create_note_error(
                s,
                note_id,
                folder_id,
                inbox,
                now,
            ) == early_error(request),
            StoreRequestView::UpdateNote { id, title, body, updated_at } => update_note_error(
                s.notes,
                id,
                stamp_of(updated_at, now),
            ) == early_error(request),
            StoreRequestView::GetNote { id } => get_note_error(s.notes, id) == early_error(
                request,
            ),
        },
{
}

/// The time of update that an update request asks for: its own, or `now`
/// where it names none.
pub open spec fn stamp_of(updated_at: Option<i64>, now: i64) -> i64 {
    match updated_at {
        Some(t) => t,
        None => now,
    }
}

/// Answers a store request. `note_id` and `inbox` are fresh ids, for the
/// note and the inbox that the request may create, and `now` is the time.
pub fn apply(store: &mut Store, request: StoreRequest, note_id: String, inbox: String, now: i64) -> (r:
    Result<Reply, StoreError>)
    requires
        old(store).wf(),
    ensures
        final(store).wf(),
        match request@ {
            StoreRequestView::EnsureInbox => {
                if !has_inbox(old(store)@.folders) && has_folder(old(store)@.folders, inbox@) {
                    &&& r matches Err(e)
                    &&& e == StoreError::DuplicateId
                    &&& final(store)@ == old(store)@
                } else {
                    &&& r matches Ok(Reply::Inbox { folder_id })
                    &&& final(store)@ == with_inbox(old(store)@, inbox@, now)
                    &&& folder_id@ == inbox_id(final(store)@.folders)
                    &&& one_inbox(final(store)@.folders)
                }
            },
            StoreRequestView::CreateNote { title, body, folder_id } => {
                match create_note_error(old(store)@, note_id@, folder_id, inbox@, now) {
                    Some(e) => r matches Err(got) && got == e && final(store)@
                        == create_note_leaves(old(store)@, folder_id, inbox@, now, e),
                    None => {
                        &&& r matches Ok(Reply::Created(c))
                        &&& c.id@ == note_id@
                        &&& c.folder_id@ == note_target(old(store)@, folder_id, inbox@, now)
                        &&& c.created_at == now
                        &&& c.updated_at == now
                        &&& final(store)@ == filed(
                            note_stage(old(store)@, folder_id, inbox@, now),
                            fresh_note(note_id@, c.folder_id@, title, body, now),
                        )
                    },
                }
            },
            StoreRequestView::UpdateNote { id, title, body, updated_at } => {
                &&& final(store)@.folders == old(store)@.folders
                &&& match update_note_error(old(store)@.notes, id, stamp_of(updated_at, now)) {
                    Some(e) => r matches Err(got) && got == e && final(store)@ == old(store)@,
                    None => {
                        &&& r matches Ok(Reply::Updated { id: told, updated_at: stamp })
                        &&& told@ == id
                        &&& stamp == stamp_of(updated_at, now)
                        &&& final(store)@.notes == updated(
                            old(store)@.notes,
                            id,
                            title,
                            body,
                            stamp_of(updated_at, now),
                        )
                    },
                }
            },
            StoreRequestView::GetNote { id } => {
                &&& final(store)@ == old(store)@
                &&& match get_note_error(old(store)@.notes, id) {
                    Some(e) => r matches Err(got) && got == e,
                    None => {
                        &&& r matches Ok(Reply::Note(d))
                        &&& d.note@ == old(store)@.notes[note_index(old(store)@.notes, id)]
                        &&& d.folder_name@ == folder_of(old(store)@.folders, d.note@.folder_id).name
                    },
                }
            },
        },
{
    match request {
        StoreRequest::EnsureInbox => {
            match store.ensure_inbox(inbox, now) {
                Ok(folder_id) => Ok(Reply::Inbox { folder_id }),
                Err(e) => Err(e),
            }
        },
        StoreRequest::CreateNote { title, body, folder_id } => {
            match store.create_note(note_id, title, body, folder_id, inbox, now) {
                Ok(c) => Ok(Reply::Created(c)),
                Err(e) => Err(e),
            }
        },
        StoreRequest::UpdateNote { id, title, body, updated_at } => {
            let stamp: i64 = match updated_at {
                Some(t) => t,
                None => now,
            };
            match store.update_note(id.as_str(), title, body, stamp) {
                Ok(()) => Ok(Reply::Updated { id, updated_at: stamp }),
                Err(e) => Err(e),
            }
        },
        StoreRequest::GetNote { id } => {
            match store.get_note(id.as_str()) {
                Ok(d) => Ok(Reply::Note(d)),
                Err(e) => Err(e),
            }
        },
    }
}

} // verus!
