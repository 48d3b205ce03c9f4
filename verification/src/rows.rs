//! Rows of the database as values of the store.

use crate::model::{Folder, FolderView, Note, NoteView};
use crate::search::{NoteHit, NoteHitView};
use crate::sqlite::SqlValue;
use vstd::prelude::*;

verus! {

/// What a database value holds, as a mathematical value.
pub enum SqlValueView {
    Null,
    Integer(i64),
    Text(Seq<char>),
    Other,
}

impl View for SqlValue {
    type V = SqlValueView;

    open spec fn view(&self) -> SqlValueView {
        match self {
            SqlValue::Null => SqlValueView::Null,
            SqlValue::Integer(i) => SqlValueView::Integer(*i),
            SqlValue::Text(s) => SqlValueView::Text(s@),
            SqlValue::Other => SqlValueView::Other,
        }
    }
}

/// The values of `row`, as mathematical values.
pub open spec fn row_view(row: Seq<SqlValue>) -> Seq<SqlValueView> {
    Seq::new(row.len(), |i: int| row[i]@)
}

/// The folder that a row of five columns holds: id, name, created_at and
/// updated_at, and the parent's id or `NULL`.
pub open spec fn folder_row(row: Seq<SqlValueView>) -> Option<FolderView> {
    if row.len() == 5 && row[0] is Text && row[1] is Text && row[2] is Integer && row[3] is Integer
        && (row[4] is Text || row[4] is Null) {
        Some(
            FolderView {
                id: row[0]->Text_0,
                name: row[1]->Text_0,
                created_at: row[2]->Integer_0,
                updated_at: row[3]->Integer_0,
                parent_id: if row[4] is Text {
                    Some(row[4]->Text_0)
                } else {
                    None
                },
            },
        )
    } else {
        None
    }
}

/// The note that a row of eight columns holds: id, folder_id, title, body,
/// created_at, updated_at, pinned (0 for an unpinned note) and sort_order.
pub open spec fn note_row(row: Seq<SqlValueView>) -> Option<NoteView> {
    if row.len() == 8 && row[0] is Text && row[1] is Text && row[2] is Text && row[3] is Text
        && row[4] is Integer && row[5] is Integer && row[6] is Integer && row[7] is Integer {
        Some(
            NoteView {
                id: row[0]->Text_0,
                folder_id: row[1]->Text_0,
                title: row[2]->Text_0,
                body: row[3]->Text_0,
                created_at: row[4]->Integer_0,
                updated_at: row[5]->Integer_0,
                pinned: row[6]->Integer_0 != 0,
                sort_order: row[7]->Integer_0,
            },
        )
    } else {
        None
    }
}

/// The hit that a row of six columns holds: id, folder_id, title, preview,
/// updated_at and the folder's name.
pub open spec fn hit_row(row: Seq<SqlValueView>) -> Option<NoteHitView> {
    if row.len() == 6 && row[0] is Text && row[1] is Text && row[2] is Text && row[3] is Text
        && row[4] is Integer && row[5] is Text {
        Some(
            NoteHitView {
                id: row[0]->Text_0,
                folder_id: row[1]->Text_0,
                title: row[2]->Text_0,
                preview: row[3]->Text_0,
                updated_at: row[4]->Integer_0,
                folder_name: row[5]->Text_0,
            },
        )
    } else {
        None
    }
}

/// The text of a column.
pub fn text_at(row: &Vec<SqlValue>, i: usize) -> (r: Option<String>)
    ensures
        match r {
            Some(s) => i < row.len() && row_view(row@)[i as int] == SqlValueView::Text(s@),
            None => !(i < row.len() && row_view(row@)[i as int] is Text),
        },
{
    if i >= row.len() {
        return None;
    }
    match &row[i] {
        SqlValue::Text(s) => Some(s.clone()),
        _ => None,
    }
}

/// The whole number of a column.
pub fn int_at(row: &Vec<SqlValue>, i: usize) -> (r: Option<i64>)
    ensures
        match r {
            Some(v) => i < row.len() && row_view(row@)[i as int] == SqlValueView::Integer(v),
            None => !(i < row.len() && row_view(row@)[i as int] is Integer),
        },
{
    if i >= row.len() {
        return None;
    }
    match &row[i] {
        SqlValue::Integer(v) => Some(*v),
        _ => None,
    }
}

/// The folder that `row` holds.
pub fn decode_folder(row: &Vec<SqlValue>) -> (r: Option<Folder>)
    ensures
        match r {
            Some(f) => folder_row(row_view(row@)) == Some(f@),
            None => folder_row(row_view(row@)) is None,
        },
{
    if row.len() != 5 {
        return None;
    }
    let parent_id = match &row[4] {
        SqlValue::Text(s) => Some(s.clone()),
        SqlValue::Null => None,
        _ => {
            return None;
        },
    };
    match (text_at(row, 0), text_at(row, 1), int_at(row, 2), int_at(row, 3)) {
        (Some(id), Some(name), Some(created_at), Some(updated_at)) => Some(
            Folder { id, name, created_at, updated_at, parent_id },
        ),
        _ => None,
    }
}

/// The note that `row` holds.
pub fn decode_note(row: &Vec<SqlValue>) -> (r: Option<Note>)
    ensures
        match r {
            Some(n) => note_row(row_view(row@)) == Some(n@),
            None => note_row(row_view(row@)) is None,
        },
{
    if row.len() != 8 {
        return None;
    }
    match (text_at(row, 0), text_at(row, 1), text_at(row, 2), text_at(row, 3)) {
        (Some(id), Some(folder_id), Some(title), Some(body)) => {
            match (int_at(row, 4), int_at(row, 5), int_at(row, 6), int_at(row, 7)) {
                (Some(created_at), Some(updated_at), Some(pinned), Some(sort_order)) => Some(
                    Note {
                        id,
                        folder_id,
                        title,
                        body,
                        created_at,
                        updated_at,
                        pinned: pinned != 0,
                        sort_order,
                    },
                ),
                _ => None,
            }
        },
        _ => None,
    }
}

/// The hit that `row` holds.
pub fn decode_hit(row: &Vec<SqlValue>) -> (r: Option<NoteHit>)
    ensures
        match r {
            Some(h) => hit_row(row_view(row@)) == Some(h@),
            None => hit_row(row_view(row@)) is None,
        },
{
    if row.len() != 6 {
        return None;
    }
    match (text_at(row, 0), text_at(row, 1), text_at(row, 2), text_at(row, 3)) {
        (Some(id), Some(folder_id), Some(title), Some(preview)) => {
            match (int_at(row, 4), text_at(row, 5)) {
                (Some(updated_at), Some(folder_name)) => Some(
                    NoteHit { id, folder_id, title, preview, updated_at, folder_name },
                ),
                _ => None,
            }
        },
        _ => None,
    }
}

/// Every row of `rows` holds a hit.
pub open spec fn all_hits(rows: Seq<Vec<SqlValue>>) -> bool {
    forall|i: int| 0 <= i < rows.len() ==> hit_row(row_view((#[trigger] rows[i])@)) is Some
}

/// The hits that `rows` hold, in order; `None` if a row holds none.
pub fn decode_hits(rows: &Vec<Vec<SqlValue>>) -> (r: Option<Vec<NoteHit>>)
    ensures
        match r {
            Some(hits) => {
                &&& all_hits(rows@)
                &&& hits.len() == rows.len()
                &&& forall|i: int|
                    0 <= i < hits.len() ==> Some((#[trigger] hits[i])@) == hit_row(
                        row_view(rows[i]@),
                    )
            },
            None => !all_hits(rows@),
        },
{
    let mut out: Vec<NoteHit> = Vec::new();
    let mut i: usize = 0;
    while i < rows.len()
        invariant
            i <= rows.len(),
            out.len() == i,
            forall|j: int| 0 <= j < i ==> hit_row(row_view((#[trigger] rows[j])@)) is Some,
            forall|j: int| 0 <= j < i ==> Some((#[trigger] out[j])@) == hit_row(row_view(rows[j]@)),
        decreases rows.len() - i,
    {
        match decode_hit(&rows[i]) {
            Some(h) => {
                out.push(h);
            },
            None => {
                return None;
            },
        }
        i += 1;
    }
    Some(out)
}

/// Every row of `rows` holds a folder.
pub open spec fn all_folders(rows: Seq<Vec<SqlValue>>) -> bool {
    forall|i: int| 0 <= i < rows.len() ==> folder_row(row_view((#[trigger] rows[i])@)) is Some
}

/// The folders that `rows` hold, in order; `None` if a row holds none.
pub fn decode_folders(rows: &Vec<Vec<SqlValue>>) -> (r: Option<Vec<Folder>>)
    ensures
        match r {
            Some(fs) => {
                &&& all_folders(rows@)
                &&& fs.len() == rows.len()
                &&& forall|i: int|
                    0 <= i < fs.len() ==> Some((#[trigger] fs[i])@) == folder_row(
                        row_view(rows[i]@),
                    )
            },
            None => !all_folders(rows@),
        },
{
    let mut out: Vec<Folder> = Vec::new();
    let mut i: usize = 0;
    while i < rows.len()
        invariant
            i <= rows.len(),
            out.len() == i,
            forall|j: int| 0 <= j < i ==> folder_row(row_view((#[trigger] rows[j])@)) is Some,
            forall|j: int|
                0 <= j < i ==> Some((#[trigger] out[j])@) == folder_row(row_view(rows[j]@)),
        decreases rows.len() - i,
    {
        match decode_folder(&rows[i]) {
            Some(f) => {
                out.push(f);
            },
            None => {
                return None;
            },
        }
        i += 1;
    }
    Some(out)
}

/// Every row of `rows` holds a note.
pub open spec fn all_notes(rows: Seq<Vec<SqlValue>>) -> bool {
    forall|i: int| 0 <= i < rows.len() ==> note_row(row_view((#[trigger] rows[i])@)) is Some
}

/// The notes that `rows` hold, in order; `None` if a row holds none.
pub fn decode_notes(rows: &Vec<Vec<SqlValue>>) -> (r: Option<Vec<Note>>)
    ensures
        match r {
            Some(ns) => {
                &&& all_notes(rows@)
                &&& ns.len() == rows.len()
                &&& forall|i: int|
                    0 <= i < ns.len() ==> Some((#[trigger] ns[i])@) == note_row(row_view(rows[i]@))
            },
            None => !all_notes(rows@),
        },
{
    let mut out: Vec<Note> = Vec::new();
    let mut i: usize = 0;
    while i < rows.len()
        invariant
            i <= rows.len(),
            out.len() == i,
            forall|j: int| 0 <= j < i ==> note_row(row_view((#[trigger] rows[j])@)) is Some,
            forall|j: int| 0 <= j < i ==> Some((#[trigger] out[j])@) == note_row(row_view(rows[j]@)),
        decreases rows.len() - i,
    {
        match decode_note(&rows[i]) {
            Some(n) => {
                out.push(n);
            },
            None => {
                return None;
            },
        }
        i += 1;
    }
    Some(out)
}

/// The folders that `rows` hold, in order, where every row holds one.
pub open spec fn folders_of_rows(rows: Seq<Vec<SqlValue>>) -> Seq<FolderView> {
    Seq::new(rows.len(), |i: int| folder_row(row_view(rows[i]@))->0)
}

/// The notes that `rows` hold, in order, where every row holds one.
pub open spec fn notes_of_rows(rows: Seq<Vec<SqlValue>>) -> Seq<NoteView> {
    Seq::new(rows.len(), |i: int| note_row(row_view(rows[i]@))->0)
}

/// The row of five columns that holds `f`.
pub fn folder_params(f: &Folder) -> (r: Vec<SqlValue>)
    ensures
        folder_row(row_view(r@)) == Some(f@),
{
    let parent = match &f.parent_id {
        Some(p) => SqlValue::Text(p.clone()),
        None => SqlValue::Null,
    };
    let r = vec![
        SqlValue::Text(f.id.clone()),
        SqlValue::Text(f.name.clone()),
        SqlValue::Integer(f.created_at),
        SqlValue::Integer(f.updated_at),
        parent,
    ];
    assert(row_view(r@)[0] == r@[0]@);
    assert(row_view(r@)[1] == r@[1]@);
    assert(row_view(r@)[2] == r@[2]@);
    assert(row_view(r@)[3] == r@[3]@);
    assert(row_view(r@)[4] == r@[4]@);
    r
}

/// The row of eight columns that holds `n`.
pub fn note_params(n: &Note) -> (r: Vec<SqlValue>)
    ensures
        note_row(row_view(r@)) == Some(n@),
{
    let pinned: i64 = if n.pinned {
        1
    } else {
        0
    };
    let r = vec![
        SqlValue::Text(n.id.clone()),
        SqlValue::Text(n.folder_id.clone()),
        SqlValue::Text(n.title.clone()),
        SqlValue::Text(n.body.clone()),
        SqlValue::Integer(n.created_at),
        SqlValue::Integer(n.updated_at),
        SqlValue::Integer(pinned),
        SqlValue::Integer(n.sort_order),
    ];
    assert(row_view(r@)[0] == r@[0]@);
    assert(row_view(r@)[1] == r@[1]@);
    assert(row_view(r@)[2] == r@[2]@);
    assert(row_view(r@)[3] == r@[3]@);
    assert(row_view(r@)[4] == r@[4]@);
    assert(row_view(r@)[5] == r@[5]@);
    assert(row_view(r@)[6] == r@[6]@);
    assert(row_view(r@)[7] == r@[7]@);
    r
}

} // verus!
