use anote_store::changes::Change;
use anote_store::store::Store;

fn s(x: &str) -> String {
    x.to_string()
}

fn base() -> Store {
    let mut st = Store::new();
    st.create_folder(s("a"), s("A"), None, 10).unwrap();
    st.create_folder(s("b"), s("B"), Some(s("a")), 20).unwrap();
    st.create_folder(s("c"), s("C"), Some(s("b")), 30).unwrap();
    st.create_folder(s("d"), s("D"), None, 40).unwrap();
    st.file_note(s("n1"), s("a"), s("t1"), s("b1"), 1).unwrap();
    st.file_note(s("n2"), s("c"), s("t2"), s("b2"), 2).unwrap();
    st.file_note(s("n3"), s("d"), s("t3"), s("b3"), 3).unwrap();
    st
}

#[test]
fn nothing_changes_between_equal_stores() {
    let st = base();
    assert_eq!(st.changes_to(&st.clone()), vec![]);
    assert_eq!(Store::new().changes_to(&Store::new()), vec![]);
}

#[test]
fn everything_is_put_into_an_empty_file() {
    let st = base();
    let changes = Store::new().changes_to(&st);
    let mut want: Vec<Change> = st.list_folders().into_iter().map(Change::PutFolder).collect();
    want.extend(st.get_notes_all().into_iter().map(Change::PutNote));
    assert_eq!(changes, want);
    assert_eq!(changes.len(), 7);
}

#[test]
fn everything_is_deleted_children_first() {
    let st = base();
    let changes = st.changes_to(&Store::new());
    assert_eq!(
        changes,
        vec![
            Change::DeleteNote(s("n1")),
            Change::DeleteNote(s("n2")),
            Change::DeleteNote(s("n3")),
            Change::DeleteFolder(s("c")),
            Change::DeleteFolder(s("d")),
            Change::DeleteFolder(s("b")),
            Change::DeleteFolder(s("a")),
        ]
    );
}

#[test]
fn a_cascading_delete_and_edits() {
    let before = base();
    let mut after = before.clone();
    after.delete_folder("b");
    after.rename_folder("d", s("Dee"), 50).unwrap();
    after.update_note("n3", s("t3x"), s("b3x"), 60).unwrap();
    after.file_note(s("n4"), s("d"), s("t4"), s("b4"), 70).unwrap();
    let changes = before.changes_to(&after);
    let d = after.list_folders().pop().unwrap();
    let notes = after.get_notes_all();
    assert_eq!(
        changes,
        vec![
            Change::DeleteNote(s("n2")),
            Change::DeleteFolder(s("c")),
            Change::DeleteFolder(s("b")),
            Change::PutFolder(d),
            Change::PutNote(notes[1].clone()),
            Change::PutNote(notes[2].clone()),
        ]
    );
    assert_eq!(notes[1].sort_order, 1);
    assert_eq!(notes[2].id, "n4");
}

#[test]
fn deep_chains_are_deleted_from_the_leaf_up() {
    let mut st = Store::new();
    st.create_folder(s("k"), s("K"), None, 1).unwrap();
    st.create_folder(s("j"), s("J"), None, 2).unwrap();
    st.create_folder(s("i"), s("I"), None, 3).unwrap();
    st.create_folder(s("h"), s("H"), None, 4).unwrap();
    // h > k > i > j
    st.reparent_folder("k", Some(s("h")), 5).unwrap();
    st.reparent_folder("i", Some(s("k")), 5).unwrap();
    st.reparent_folder("j", Some(s("i")), 5).unwrap();
    let changes = st.changes_to(&Store::new());
    assert_eq!(
        changes,
        vec![
            Change::DeleteFolder(s("j")),
            Change::DeleteFolder(s("i")),
            Change::DeleteFolder(s("k")),
            Change::DeleteFolder(s("h")),
        ]
    );
    let settled = vec![false, false, false, false];
    assert!(st.has_pending_child(&settled, 3));
    assert!(st.has_pending_child(&settled, 0));
    assert!(!st.has_pending_child(&settled, 1));
    assert!(!st.has_pending_child(&vec![false, true, false, false], 2));
}
