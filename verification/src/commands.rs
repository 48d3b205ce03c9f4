//! The changes that the desktop program asks for, each as one value.

use crate::cascade::without_subtree;
use crate::folders::{
    create_folder_error, move_view, rename_folder_error, renamed, update_folder_result,
    with_folder,
};
use crate::import::{
    import_folders, imported, lemma_import_folders_errors, lemma_import_notes_errors,
};
use crate::model::{folder_views, note_views, opt_view, Folder, FolderView, Note, StoreError};
use crate::notes::{insert_note_error, update_note_error, updated, with_pin, without_note};
use crate::ident::{is_safe_id, safe_id};
use crate::ordering::{all_ids_safe, all_safe, pair_views, reordered};
use crate::store::{Store, StoreView};
use vstd::prelude::*;

verus! {

/// One change to the store.
#[derive(Debug, PartialEq, Eq)]
pub enum Command {
    CreateFolder { id: String, name: String, created_at: i64, parent_id: Option<String> },
    RenameFolder { id: String, name: String },
    UpdateFolder { id: String, name: Option<String>, parent_id: Option<Option<String>> },
    DeleteFolder { id: String },
    InsertNote { note: Note },
    UpdateNote { id: String, title: String, body: String, updated_at: i64 },
    DeleteNote { id: String },
    SetPinned { id: String, pinned: bool },
    Reorder { pairs: Vec<(String, i64)> },
    Import { folders: Vec<Folder>, notes: Vec<Note> },
}

/// Whether `r` and `after` are the outcome of `command` on the store
/// `before` at the time `now`: what the operation that the command names
/// returns, and the store that it leaves.
pub open spec fn is_outcome(
    before: StoreView,
    command: Command,
    now: i64,
    r: Result<(), StoreError>,
    after: StoreView,
) -> bool {
    match command {
        Command::CreateFolder { id, name, created_at, parent_id } => {
            match create_folder_error(before.folders, id@, name@, opt_view(parent_id)) {
                Some(e) => r == Err::<(), StoreError>(e) && after == before,
                None => r is Ok && after == (StoreView {
                    folders: with_folder(
                        before.folders,
                        FolderView {
                            id: id@,
                            name: name@,
                            created_at,
                            updated_at: created_at,
                            parent_id: opt_view(parent_id),
                        },
                    ),
                    notes: before.notes,
                }),
            }
        },
        Command::RenameFolder { id, name } => {
            &&& after.notes == before.notes
            &&& match rename_folder_error(before.folders, id@, name@) {
                Some(e) => r == Err::<(), StoreError>(e) && after == before,
                None => r is Ok && after.folders == renamed(before.folders, id@, name@, now),
            }
        },
        Command::UpdateFolder { id, name, parent_id } => {
            &&& after.notes == before.notes
            &&& match update_folder_result(
                before.folders,
                id@,
                opt_view(name),
                move_view(parent_id),
                now,
            ) {
                Ok(fs) => r is Ok && after.folders == fs,
                Err(e) => r == Err::<(), StoreError>(e) && after == before,
            }
        },
        Command::DeleteFolder { id } => r is Ok && after == without_subtree(before, id@),
        Command::InsertNote { note } => {
            &&& after.folders == before.folders
            &&& match insert_note_error(before, note@) {
                Some(e) => r == Err::<(), StoreError>(e) && after == before,
                None => r is Ok && after.notes == before.notes.push(note@),
            }
        },
        Command::UpdateNote { id, title, body, updated_at } => {
            &&& after.folders == before.folders
            &&& match update_note_error(before.notes, id@, updated_at) {
                Some(e) => r == Err::<(), StoreError>(e) && after == before,
                None => r is Ok && after.notes == updated(
                    before.notes,
                    id@,
                    title@,
                    body@,
                    updated_at,
                ),
            }
        },
        Command::DeleteNote { id } => {
            &&& r is Ok
            &&& after.folders == before.folders
            &&& after.notes == without_note(before.notes, id@)
        },
        Command::SetPinned { id, pinned } => {
            &&& r is Ok
            &&& after.folders == before.folders
            &&& after.notes == with_pin(before.notes, id@, pinned)
        },
        Command::Reorder { pairs } => {
            &&& after.folders == before.folders
            &&& if all_safe(pair_views(pairs@)) {
                r is Ok && after.notes == reordered(before.notes, pair_views(pairs@))
            } else {
                r == Err::<(), StoreError>(StoreError::InvalidNoteId) && after == before
            }
        },
        Command::Import { folders, notes } => {
            match imported(before, folder_views(folders@), note_views(notes@)) {
                Ok(s) => r is Ok && after == s,
                Err(e) => r == Err::<(), StoreError>(e) && after == before,
            }
        },
    }
}

/// What becomes of a command whatever the store holds, if that is settled:
/// a batch of sort orders with an id that is not safe, an update of a note
/// under an id that is not safe, and a folder that is to be its own parent
/// are turned down; an empty batch of sort orders and an update of a folder
/// that asks for nothing succeed and change nothing.
pub open spec fn early_outcome(command: Command) -> Option<Result<(), StoreError>> {
    match command {
        Command::CreateFolder { id, name, created_at, parent_id } => if opt_view(parent_id)
            == Some(id@) {
            Some(Err(StoreError::SelfParent))
        } else {
            None
        },
        Command::UpdateFolder { id, name, parent_id } => if name is None {
            match parent_id {
                None => Some(Ok(())),
                Some(p) => if opt_view(p) == Some(id@) {
                    Some(Err(StoreError::SelfParent))
                } else {
                    None
                },
            }
        } else {
            None
        },
        Command::UpdateNote { id, title, body, updated_at } => if !safe_id(id@) {
            Some(Err(StoreError::InvalidNoteId))
        } else {
            None
        },
        Command::Reorder { pairs } => if !all_safe(pair_views(pairs@)) {
            Some(Err(StoreError::InvalidNoteId))
        } else if pairs@.len() == 0 {
            Some(Ok(()))
        } else {
            None
        },
        _ => None,
    }
}

/// What becomes of a command whatever the store holds, if that is settled.
pub fn settle_early(command: &Command) -> (r: Option<Result<(), StoreError>>)
    ensures
        r == early_outcome(*command),
{
    match command {
        Command::CreateFolder { id, name, created_at, parent_id } => match parent_id {
            Some(p) => if *p == *id {
                Some(Err(StoreError::SelfParent))
            } else {
                None
            },
            None => None,
        },
        Command::UpdateFolder { id, name, parent_id } => if name.is_none() {
            match parent_id {
                None => Some(Ok(())),
                Some(Some(p)) => if *p == *id {
                    Some(Err(StoreError::SelfParent))
                } else {
                    None
                },
                Some(None) => None,
            }
        } else {
            None
        },
        Command::UpdateNote { id, title, body, updated_at } => if !is_safe_id(id.as_str()) {
            Some(Err(StoreError::InvalidNoteId))
        } else {
            None
        },
        Command::Reorder { pairs } => if !all_ids_safe(pairs) {
            Some(Err(StoreError::InvalidNoteId))
        } else if pairs.len() == 0 {
            Some(Ok(()))
        } else {
            None
        },
        _ => None,
    }
}

/// What is settled of a command before the store is looked at is what
/// every store makes of it, and the store is then left as it was.
pub proof fn lemma_early_outcome_stands(
    before: StoreView,
    command: Command,
    now: i64,
    r: Result<(), StoreError>,
    after: StoreView,
)
    requires
        is_outcome(before, command, now, r, after),
        early_outcome(command) is Some,
    ensures
        match early_outcome(command) {
            Some(Ok(_)) => r is Ok,
            Some(Err(e)) => r == Err::<(), StoreError>(e),
            None => true,
        },
        after == before,
{
    match command {
        Command::Reorder { pairs } => {
            if all_safe(pair_views(pairs@)) {
                assert(pair_views(pairs@).len() == 0);
                assert(reordered(before.notes, pair_views(pairs@)) == before.notes);
            }
        },
        _ => {},
    }
    if r is Ok {
        assert(after.folders == before.folders);
        assert(after.notes == before.notes);
    }
}

impl Store {
    /// Carries out one command. `now` is the time with which a folder that
    /// is renamed or moved is stamped.
    pub fn run(&mut self, command: Command, now: i64) -> (r: Result<(), StoreError>)
        requires
            old(self).wf(),
        ensures
            final(self).wf(),
            is_outcome(old(self)@, command, now, r, final(self)@),
    {
        match command {
            Command::CreateFolder { id, name, created_at, parent_id } => self.create_folder(
                id,
                name,
                parent_id,
                created_at,
            ),
            Command::RenameFolder { id, name } => self.rename_folder(id.as_str(), name, now),
            Command::UpdateFolder { id, name, parent_id } => self.update_folder(
                id.as_str(),
                name,
                parent_id,
                now,
            ),
            Command::DeleteFolder { id } => {
                self.delete_folder(id.as_str());
                Ok(())
            },
            Command::InsertNote { note } => self.insert_note(note),
            Command::UpdateNote { id, title, body, updated_at } => self.update_note(
                id.as_str(),
                title,
                body,
                updated_at,
            ),
            Command::DeleteNote { id } => {
                self.delete_note(id.as_str());
                Ok(())
            },
            Command::SetPinned { id, pinned } => {
                self.set_pinned(id.as_str(), pinned);
                Ok(())
            },
            Command::Reorder { pairs } => self.reorder(&pairs),
            Command::Import { folders, notes } => self.import(&folders, &notes),
        }
    }
}

/// Why a command did not change the file.
#[derive(Clone, Debug, PartialEq, Eq)]
pub enum ChangeError {
    /// The store turned the command down.
    Store(StoreError),
    /// The engine failed, with its words.
    Engine(String),
}

impl ChangeError {
    /// The words for `self`: those of the store's error, or the engine's.
    pub fn message(&self) -> (r: String)
        ensures
            match *self {
                ChangeError::Store(e) => r@ == e.spec_message(),
                ChangeError::Engine(words) => r@ == words@,
            },
    {
        match self {
            ChangeError::Store(e) => e.message(),
            ChangeError::Engine(words) => words.clone(),
        }
    }
}

/// An error of the store that depends on what the store holds: any but the
/// two that tell of an id that is not safe.
pub open spec fn is_late_error(e: StoreError) -> bool {
    e != StoreError::InvalidNoteId && e != StoreError::InvalidFolderId
}

/// A command that is not settled before the store is looked at fails only
/// on what the store holds.
pub proof fn lemma_late_errors(
    before: StoreView,
    command: Command,
    now: i64,
    r: Result<(), StoreError>,
    after: StoreView,
)
    requires
        is_outcome(before, command, now, r, after),
        early_outcome(command) is None,
    ensures
        r matches Err(e) ==> is_late_error(e),
{
    match command {
        Command::Import { folders, notes } => {
            lemma_import_folders_errors(before.folders, folder_views(folders@));
            if import_folders(before.folders, folder_views(folders@)) is Ok {
                lemma_import_notes_errors(
                    import_folders(before.folders, folder_views(folders@))->Ok_0,
                    before.notes,
                    note_views(notes@),
                );
            }
        },
        _ => {},
    }
}

} // verus!
