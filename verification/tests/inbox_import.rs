use anote_store::inbox::Created;
use anote_store::model::{Folder, Note, StoreError};
use anote_store::store::Store;
use anote_store::validate::rooted_copy;

fn s(x: &str) -> String {
    x.to_string()
}

fn folder(id: &str, name: &str, at: i64, parent: Option<&str>) -> Folder {
    Folder { id: s(id), name: s(name), created_at: at, updated_at: at, parent_id: parent.map(s) }
}

fn note(id: &str, folder: &str, at: i64) -> Note {
    Note {
        id: s(id),
        folder_id: s(folder),
        title: format!("title of {}", id),
        body: format!("body of {}", id),
        created_at: at,
        updated_at: at,
        pinned: false,
        sort_order: 3,
    }
}

fn inboxes(st: &Store) -> usize {
    st.list_folders().iter().filter(|f| f.name == "Inbox" && f.parent_id.is_none()).count()
}

#[test]
fn ensure_inbox_creates_once() {
    let mut st = Store::new();
    assert_eq!(st.find_inbox(), None);
    assert_eq!(st.ensure_inbox(s("i1"), 10), Ok(s("i1")));
    assert_eq!(inboxes(&st), 1);
    assert_eq!(st.ensure_inbox(s("i2"), 20), Ok(s("i1")));
    assert_eq!(st.ensure_inbox(s("i1"), 30), Ok(s("i1")));
    for k in 0..20 {
        assert_eq!(st.ensure_inbox(format!("other{}", k), 40 + k), Ok(s("i1")));
    }
    assert_eq!(inboxes(&st), 1);
    assert_eq!(
        st.list_folders(),
        vec![Folder { id: s("i1"), name: s("Inbox"), created_at: 10, updated_at: 10, parent_id: None }]
    );
    assert_eq!(st.find_inbox(), Some(0));
}

#[test]
fn ensure_inbox_looks_at_root_level_only() {
    let mut st = Store::new();
    st.create_folder(s("a"), s("A"), None, 1).unwrap();
    st.create_folder(s("nested"), s("Inbox"), Some(s("a")), 2).unwrap();
    assert_eq!(st.ensure_inbox(s("a"), 3), Err(StoreError::DuplicateId));
    assert_eq!(st.list_folders().len(), 2);
    assert_eq!(st.ensure_inbox(s("i1"), 3), Ok(s("i1")));
    assert_eq!(inboxes(&st), 1);
    assert_eq!(st.list_folders().len(), 3);
}

#[test]
fn create_note_without_folder_makes_the_inbox() {
    let mut st = Store::new();
    let c = st.create_note(s("n1"), s("hello"), s("world"), None, s("i1"), 500).unwrap();
    assert_eq!(c, Created { id: s("n1"), folder_id: s("i1"), created_at: 500, updated_at: 500 });
    assert_eq!(inboxes(&st), 1);
    assert_eq!(st.list_folders().len(), 1);
    let notes = st.get_notes_all();
    assert_eq!(notes.len(), 1);
    assert_eq!(notes[0].folder_id, "i1");
    assert_eq!(notes[0].sort_order, 0);
    assert!(!notes[0].pinned);
    let c2 = st.create_note(s("n2"), s("again"), s(""), None, s("i2"), 600).unwrap();
    assert_eq!(c2.folder_id, "i1");
    assert_eq!(inboxes(&st), 1);
    let orders: Vec<i64> = st.get_notes_all().iter().map(|n| n.sort_order).collect();
    assert_eq!(orders, vec![1, 0]);
}

#[test]
fn create_note_in_a_folder() {
    let mut st = Store::new();
    st.create_folder(s("f1"), s("Work"), None, 1).unwrap();
    let c = st.create_note(s("n1"), s("t"), s("b"), Some(s("f1")), s("i1"), 2).unwrap();
    assert_eq!(c.folder_id, "f1");
    assert_eq!(inboxes(&st), 0);
    assert_eq!(
        st.create_note(s("n2"), s("t"), s("b"), Some(s("nope")), s("i1"), 3),
        Err(StoreError::FolderNotFound)
    );
    assert_eq!(
        st.create_note(s("n2"), s("t"), s("b"), Some(s("no pe")), s("i1"), 3),
        Err(StoreError::InvalidFolderId)
    );
    assert_eq!(
        st.create_note(s("n2"), s("t"), s("b"), Some(s("")), s("i1"), 3),
        Err(StoreError::InvalidFolderId)
    );
    assert_eq!(
        st.create_note(s("n1"), s("t"), s("b"), Some(s("f1")), s("i1"), 3),
        Err(StoreError::DuplicateId)
    );
    assert_eq!(st.get_notes_all().len(), 1);
    assert_eq!(StoreError::InvalidFolderId.message(), "invalid folder_id");
    assert_eq!(StoreError::FolderNotFound.message(), "folder not found");
}

#[test]
fn create_note_keeps_the_inbox_it_made_when_the_note_fails() {
    let mut st = Store::new();
    st.create_folder(s("f1"), s("Work"), None, 1).unwrap();
    st.file_note(s("n1"), s("f1"), s("t"), s("b"), 2).unwrap();
    assert_eq!(
        st.create_note(s("n1"), s("t"), s("b"), None, s("i1"), 3),
        Err(StoreError::DuplicateId)
    );
    assert_eq!(inboxes(&st), 1);
    assert_eq!(st.get_notes_all().len(), 1);
    // an inbox id that is taken fails before anything is made
    let mut st2 = Store::new();
    st2.create_folder(s("f1"), s("Work"), None, 1).unwrap();
    assert_eq!(
        st2.create_note(s("n1"), s("t"), s("b"), None, s("f1"), 3),
        Err(StoreError::DuplicateId)
    );
    assert_eq!(inboxes(&st2), 0);
    assert!(st2.get_notes_all().is_empty());
}

#[test]
fn import_takes_in_what_is_new() {
    let mut st = Store::new();
    st.create_folder(s("a"), s("A"), None, 10).unwrap();
    st.file_note(s("n1"), s("a"), s("mine"), s("kept"), 11).unwrap();
    let folders = vec![
        folder("a", "A changed", 99, None),
        folder("b", "B", 5, Some("a")),
        folder("c", "C", 20, Some("b")),
    ];
    let mut changed = note("n1", "a", 99);
    changed.title = s("theirs");
    let notes = vec![changed, note("n2", "c", 30), note("n3", "a", 31)];
    assert_eq!(st.import(&folders, &notes), Ok(()));
    let got = st.list_folders();
    assert_eq!(got.iter().map(|f| f.id.as_str()).collect::<Vec<_>>(), vec!["b", "a", "c"]);
    assert_eq!(got[1].name, "A");
    assert_eq!(got[1].created_at, 10);
    let ns = st.get_notes_all();
    assert_eq!(ns.iter().map(|n| n.id.as_str()).collect::<Vec<_>>(), vec!["n1", "n2", "n3"]);
    assert_eq!(ns[0].title, "mine");
    assert_eq!(ns[0].sort_order, 0);
    assert_eq!(ns[1], note("n2", "c", 30));
}

#[test]
fn import_twice_is_import_once() {
    let folders = vec![
        folder("a", "A", 1, None),
        folder("b", "B", 2, Some("a")),
        folder("a", "dup", 3, None),
        folder("r", "A", 4, None),
        folder("c", "C", 5, Some("b")),
    ];
    let notes = vec![note("n1", "a", 1), note("n2", "c", 2), note("n1", "b", 3)];
    let mut once = Store::new();
    assert_eq!(once.import(&folders, &notes), Ok(()));
    let mut twice = Store::new();
    assert_eq!(twice.import(&folders, &notes), Ok(()));
    assert_eq!(twice.import(&folders, &notes), Ok(()));
    assert_eq!(twice.import(&folders, &notes), Ok(()));
    assert_eq!(once.list_folders(), twice.list_folders());
    assert_eq!(once.get_notes_all(), twice.get_notes_all());
    assert_eq!(
        once.list_folders().iter().map(|f| f.id.as_str()).collect::<Vec<_>>(),
        vec!["a", "b", "c"]
    );
    assert_eq!(once.get_notes_all().len(), 2);
}

#[test]
fn import_failure_leaves_the_store_unchanged() {
    let mut st = Store::new();
    st.create_folder(s("a"), s("A"), None, 10).unwrap();
    let folders_before = st.list_folders();
    // the note's folder is missing
    let r = st.import(&vec![folder("b", "B", 1, None)], &vec![note("n1", "b", 1), note("n2", "zz", 2)]);
    assert_eq!(r, Err(StoreError::FolderNotFound));
    assert_eq!(st.list_folders(), folders_before);
    assert!(st.get_notes_all().is_empty());
    // the parent comes after the child
    let r = st.import(&vec![folder("c", "C", 1, Some("p")), folder("p", "P", 2, None)], &vec![]);
    assert_eq!(r, Err(StoreError::ParentNotFound));
    assert_eq!(st.list_folders(), folders_before);
    let r = st.import(&vec![folder("ok", "OK", 1, None), folder("x", "X", 1, Some("x"))], &vec![]);
    assert_eq!(r, Err(StoreError::SelfParent));
    assert_eq!(st.list_folders(), folders_before);
    assert_eq!(st.import(&vec![], &vec![]), Ok(()));
}

#[test]
fn assemble_checks_the_rules() {
    let ok = Store::assemble(
        vec![folder("c", "C", 1, Some("p")), folder("p", "P", 2, None)],
        vec![note("n1", "c", 1)],
    );
    assert!(ok.is_some());
    assert_eq!(ok.unwrap().list_folders().len(), 2);
    assert!(Store::assemble(vec![], vec![]).is_some());
    // two folders with one id
    assert!(Store::assemble(vec![folder("a", "A", 1, None), folder("a", "B", 2, None)], vec![]).is_none());
    // a parent that is missing
    assert!(Store::assemble(vec![folder("a", "A", 1, Some("zz"))], vec![]).is_none());
    // a circle
    assert!(Store::assemble(
        vec![folder("a", "A", 1, Some("b")), folder("b", "B", 2, Some("a"))],
        vec![]
    )
    .is_none());
    assert!(Store::assemble(vec![folder("a", "A", 1, Some("a"))], vec![]).is_none());
    // not oldest first
    assert!(Store::assemble(vec![folder("a", "A", 2, None), folder("b", "B", 1, None)], vec![]).is_none());
    // two root-level folders with one name
    assert!(Store::assemble(vec![folder("a", "A", 1, None), folder("b", "A", 2, None)], vec![]).is_none());
    // two notes with one id
    assert!(Store::assemble(
        vec![folder("a", "A", 1, None)],
        vec![note("n", "a", 1), note("n", "a", 2)]
    )
    .is_none());
    // a note without its folder
    assert!(Store::assemble(vec![folder("a", "A", 1, None)], vec![note("n", "b", 1)]).is_none());
    // a long chain is fine
    let mut chain = vec![folder("f0", "F0", 0, None)];
    for i in 1..40 {
        chain.push(Folder {
            id: format!("f{}", i),
            name: format!("F{}", i),
            created_at: i,
            updated_at: i,
            parent_id: Some(format!("f{}", i - 1)),
        });
    }
    let st = Store::assemble(chain, vec![]).unwrap();
    assert!(st.is_under("f39", "f0"));
    assert!(st.chains_end());
    assert!(st.chain_ends(39));
}

#[test]
fn gather_takes_what_the_rules_allow() {
    // rows that keep the rules are taken as they are, in their order
    let folders = vec![folder("c", "C", 1, Some("p")), folder("p", "P", 1, None)];
    let notes = vec![note("n1", "c", 1)];
    let g = Store::gather(folders.clone(), notes.clone());
    assert_eq!((g.folders_left, g.folders_cut, g.notes_left), (0, 0, 0));
    assert_eq!(g.store.list_folders(), folders);
    assert_eq!(g.store.get_notes_all(), notes);
    assert_eq!(Some(g.store), Store::assemble(folders, notes));
    // a circle of parents is cut, a folder that is its own parent goes to the root level
    let g = Store::gather(
        vec![
            folder("a", "A", 1, Some("b")),
            folder("b", "B", 2, Some("a")),
            folder("s", "S", 3, Some("s")),
            folder("ok", "OK", 4, None),
            folder("ok", "twice", 5, None),
            folder("r", "OK", 6, None),
            folder("k", "K", 7, Some("ok")),
        ],
        vec![note("n1", "a", 1), note("n2", "k", 2), note("n2", "ok", 3), note("n3", "s", 4)],
    );
    assert_eq!((g.folders_left, g.folders_cut, g.notes_left), (2, 2, 1));
    assert_eq!(
        g.store.list_folders(),
        vec![
            folder("a", "A", 1, None),
            folder("b", "B", 2, Some("a")),
            folder("s", "S", 3, None),
            folder("ok", "OK", 4, None),
            folder("k", "K", 7, Some("ok")),
        ]
    );
    assert_eq!(g.store.get_notes_all(), vec![note("n1", "a", 1), note("n2", "k", 2), note("n3", "s", 4)]);
    assert!(g.store.keeps_rules());
    assert!(g.store.can_take(&folder("new", "New", 9, Some("k"))));
    assert!(!g.store.can_take(&folder("new", "OK", 9, None)));
    assert!(!g.store.can_take(&folder("k", "New", 9, None)));
    assert!(!g.store.can_take(&folder("new", "New", 9, Some("zz"))));
    assert_eq!(g.store.find_cut(&vec![folder("x", "OK", 1, Some("x")), folder("y", "Y", 1, Some("y"))], &vec![false, false]), Some(1));
    assert_eq!(g.store.find_cut(&vec![folder("x", "OK", 1, Some("x"))], &vec![false]), None);
    assert_eq!(rooted_copy(&folder("x", "X", 1, Some("p"))), folder("x", "X", 1, None));
    let g = Store::gather(vec![], vec![note("n", "f", 1)]);
    assert_eq!((g.folders_left, g.notes_left), (0, 1));
}
