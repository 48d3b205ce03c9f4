//! Folders, notes and the errors of the store.

use vstd::prelude::*;

verus! {

/// A container of notes. Folders form a forest through `parent_id`.
#[derive(Debug, PartialEq, Eq)]
pub struct Folder {
    pub id: String,
    pub name: String,
    pub created_at: i64,
    pub updated_at: i64,
    pub parent_id: Option<String>,
}

/// What a folder holds, as mathematical values.
pub struct FolderView {
    pub id: Seq<char>,
    pub name: Seq<char>,
    pub created_at: i64,
    pub updated_at: i64,
    pub parent_id: Option<Seq<char>>,
}

/// The text that an optional string holds.
pub open spec fn opt_view(s: Option<String>) -> Option<Seq<char>> {
    match s {
        Some(t) => Some(t@),
        None => None,
    }
}

impl View for Folder {
    type V = FolderView;

    open spec fn view(&self) -> FolderView {
        FolderView {
            id: self.id@,
            name: self.name@,
            created_at: self.created_at,
            updated_at: self.updated_at,
            parent_id: opt_view(self.parent_id),
        }
    }
}

/// A note, filed in one folder.
#[derive(Debug, PartialEq, Eq)]
pub struct Note {
    pub id: String,
    pub folder_id: String,
    pub title: String,
    pub body: String,
    pub created_at: i64,
    pub updated_at: i64,
    pub pinned: bool,
    pub sort_order: i64,
}

/// What a note holds, as mathematical values.
pub struct NoteView {
    pub id: Seq<char>,
    pub folder_id: Seq<char>,
    pub title: Seq<char>,
    pub body: Seq<char>,
    pub created_at: i64,
    pub updated_at: i64,
    pub pinned: bool,
    pub sort_order: i64,
}

impl View for Note {
    type V = NoteView;

    open spec fn view(&self) -> NoteView {
        NoteView {
            id: self.id@,
            folder_id: self.folder_id@,
            title: self.title@,
            body: self.body@,
            created_at: self.created_at,
            updated_at: self.updated_at,
            pinned: self.pinned,
            sort_order: self.sort_order,
        }
    }
}

/// The views of the folders of `v`, in order.
pub open spec fn folder_views(v: Seq<Folder>) -> Seq<FolderView> {
    Seq::new(v.len(), |i: int| v[i]@)
}

/// The views of the notes of `v`, in order.
pub open spec fn note_views(v: Seq<Note>) -> Seq<NoteView> {
    Seq::new(v.len(), |i: int| v[i]@)
}

/// The views of a vector that grew by one folder.
pub proof fn lemma_folder_views_push(v: Seq<Folder>, f: Folder)
    ensures
        folder_views(v.push(f)) == folder_views(v).push(f@),
{
    assert(folder_views(v.push(f)) =~= folder_views(v).push(f@));
}

/// The views of a vector that grew by one note.
pub proof fn lemma_note_views_push(v: Seq<Note>, n: Note)
    ensures
        note_views(v.push(n)) == note_views(v).push(n@),
{
    assert(note_views(v.push(n)) =~= note_views(v).push(n@));
}

/// The views of a vector into which one folder was put.
pub proof fn lemma_folder_views_insert(v: Seq<Folder>, i: int, f: Folder)
    requires
        0 <= i <= v.len(),
    ensures
        folder_views(v.insert(i, f)) == folder_views(v).insert(i, f@),
{
    v.insert_ensures(i, f);
    folder_views(v).insert_ensures(i, f@);
    assert forall|j: int| 0 <= j < v.len() + 1 implies folder_views(v.insert(i, f))[j]
        == folder_views(v).insert(i, f@)[j] by {
        if j < i {
        } else if j > i {
            assert(v.insert(i, f)[(j - 1) + 1] == v[j - 1]);
            assert(folder_views(v).insert(i, f@)[(j - 1) + 1] == folder_views(v)[j - 1]);
        }
    }
    assert(folder_views(v.insert(i, f)) =~= folder_views(v).insert(i, f@));
}

/// A copy of an optional string.
pub fn clone_opt(s: &Option<String>) -> (r: Option<String>)
    ensures
        opt_view(r) == opt_view(*s),
{
    match s {
        Some(t) => Some(t.clone()),
        None => None,
    }
}

/// Whether two optional strings hold the same text.
pub fn opt_eq(a: &Option<String>, b: &Option<String>) -> (r: bool)
    ensures
        r == (opt_view(*a) == opt_view(*b)),
{
    match (a, b) {
        (Some(x), Some(y)) => *x == *y,
        (None, None) => true,
        _ => false,
    }
}

impl Clone for Folder {
    fn clone(&self) -> (r: Folder)
        ensures
            r@ == self@,
    {
        Folder {
            id: self.id.clone(),
            name: self.name.clone(),
            created_at: self.created_at,
            updated_at: self.updated_at,
            parent_id: clone_opt(&self.parent_id),
        }
    }
}

impl Clone for Note {
    fn clone(&self) -> (r: Note)
        ensures
            r@ == self@,
    {
        Note {
            id: self.id.clone(),
            folder_id: self.folder_id.clone(),
            title: self.title.clone(),
            body: self.body.clone(),
            created_at: self.created_at,
            updated_at: self.updated_at,
            pinned: self.pinned,
            sort_order: self.sort_order,
        }
    }
}

impl Folder {
    /// Whether `self` and `other` hold the same values.
    pub fn same(&self, other: &Folder) -> (r: bool)
        ensures
            r == (self@ == other@),
    {
        self.id == other.id && self.name == other.name && self.created_at == other.created_at
            && self.updated_at == other.updated_at && opt_eq(&self.parent_id, &other.parent_id)
    }
}

impl Note {
    /// Whether `self` and `other` hold the same values.
    pub fn same(&self, other: &Note) -> (r: bool)
        ensures
            r == (self@ == other@),
    {
        self.id == other.id && self.folder_id == other.folder_id && self.title == other.title
            && self.body == other.body && self.created_at == other.created_at && self.updated_at
            == other.updated_at && self.pinned == other.pinned && self.sort_order
            == other.sort_order
    }
}

/// The class of an error, as callers are told it.
#[derive(Clone, Copy, Debug, PartialEq, Eq, Structural)]
pub enum ErrorCode {
    /// The request has to be corrected.
    Validation,
    /// A stale write was turned down; the caller may read again and retry.
    Conflict,
    /// The storage engine failed.
    Internal,
}

/// Why the store turned an operation down.
#[derive(Clone, Copy, Debug, PartialEq, Eq, Structural)]
pub enum StoreError {
    /// A folder id holds a character outside the allow-list, or is empty.
    InvalidFolderId,
    /// A note id holds a character outside the allow-list, or is empty.
    InvalidNoteId,
    /// No folder has the id.
    FolderNotFound,
    /// No folder has the id given as parent.
    ParentNotFound,
    /// A folder was given as its own parent.
    SelfParent,
    /// The parent given lies below the folder.
    Cycle,
    /// No note has the id.
    NoteNotFound,
    /// The stored note is newer than the write.
    Stale,
    /// The id is taken.
    DuplicateId,
    /// Another root-level folder has the name.
    DuplicateRootName,
    /// A sort order cannot grow any further.
    OrderOverflow,
}

impl StoreError {
    /// The class of `self`.
    pub open spec fn spec_code(self) -> ErrorCode {
        match self {
            StoreError::Stale => ErrorCode::Conflict,
            StoreError::DuplicateId | StoreError::OrderOverflow => ErrorCode::Internal,
            _ => ErrorCode::Validation,
        }
    }

    /// The class of `self`.
    pub fn code(&self) -> (r: ErrorCode)
        ensures
            r == self.spec_code(),
    {
        match self {
            StoreError::Stale => ErrorCode::Conflict,
            StoreError::DuplicateId | StoreError::OrderOverflow => ErrorCode::Internal,
            _ => ErrorCode::Validation,
        }
    }
}

impl StoreError {
    /// The words for `self`.
    pub open spec fn spec_message(self) -> Seq<char> {
        match self {
            StoreError::InvalidFolderId => "invalid folder_id"@,
            StoreError::InvalidNoteId => "invalid note id"@,
            StoreError::FolderNotFound => "folder not found"@,
            StoreError::ParentNotFound => "parent folder not found"@,
            StoreError::SelfParent => "folder cannot be its own parent"@,
            StoreError::Cycle => "cannot create circular folder reference"@,
            StoreError::NoteNotFound => "note not found"@,
            StoreError::Stale => "stale note update rejected"@,
            StoreError::DuplicateId => "id is already in use"@,
            StoreError::DuplicateRootName => "a root-level folder has this name already"@,
            StoreError::OrderOverflow => "sort order cannot grow"@,
        }
    }

    /// The words for `self`.
    pub fn message(&self) -> (r: String)
        ensures
            r@ == self.spec_message(),
    {
        let words = match self {
            StoreError::InvalidFolderId => "invalid folder_id",
            StoreError::InvalidNoteId => "invalid note id",
            StoreError::FolderNotFound => "folder not found",
            StoreError::ParentNotFound => "parent folder not found",
            StoreError::SelfParent => "folder cannot be its own parent",
            StoreError::Cycle => "cannot create circular folder reference",
            StoreError::NoteNotFound => "note not found",
            StoreError::Stale => "stale note update rejected",
            StoreError::DuplicateId => "id is already in use",
            StoreError::DuplicateRootName => "a root-level folder has this name already",
            StoreError::OrderOverflow => "sort order cannot grow",
        };
        words.to_owned()
    }
}

impl ErrorCode {
    /// The word for `self` on the wire.
    pub open spec fn spec_name(self) -> Seq<char> {
        match self {
            ErrorCode::Validation => "VALIDATION"@,
            ErrorCode::Conflict => "CONFLICT"@,
            ErrorCode::Internal => "INTERNAL"@,
        }
    }

    /// The word for `self` on the wire.
    pub fn name(&self) -> (r: &'static str)
        ensures
            r@ == self.spec_name(),
    {
        match self {
            ErrorCode::Validation => "VALIDATION",
            ErrorCode::Conflict => "CONFLICT",
            ErrorCode::Internal => "INTERNAL",
        }
    }
}

} // verus!
