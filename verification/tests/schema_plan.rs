use anote_store::schema::{plan_step, Action, Schema, CURRENT_VERSION};

fn current() -> Schema {
    Schema {
        version: 4,
        notes_pinned: true,
        notes_sort_order: true,
        folders_parent_id: true,
        folders_updated_at: true,
        root_name_index: true,
        tags: true,
        note_tags: true,
    }
}

#[test]
fn blank_schema_has_nothing() {
    let s = Schema::new();
    assert_eq!(s.version, 0);
    assert!(!s.notes_pinned && !s.notes_sort_order && !s.folders_parent_id);
    assert!(!s.folders_updated_at && !s.root_name_index && !s.tags && !s.note_tags);
    assert_eq!(CURRENT_VERSION, 4);
}

#[test]
fn step_one_adds_what_is_missing() {
    let s = Schema::new();
    assert_eq!(
        plan_step(1, &s),
        vec![
            Action::AddNotesPinned,
            Action::AddNotesSortOrder,
            Action::BackfillSortOrder,
            Action::SetVersion(1)
        ]
    );
    let mut half = Schema::new();
    half.notes_pinned = true;
    assert_eq!(
        plan_step(1, &half),
        vec![Action::AddNotesSortOrder, Action::BackfillSortOrder, Action::SetVersion(1)]
    );
    let mut both = half;
    both.notes_sort_order = true;
    assert_eq!(plan_step(1, &both), vec![Action::SetVersion(1)]);
}

#[test]
fn later_steps() {
    let s = Schema::new();
    assert_eq!(plan_step(2, &s), vec![Action::AddFoldersParentId, Action::SetVersion(2)]);
    assert_eq!(
        plan_step(3, &s),
        vec![
            Action::AddFoldersUpdatedAt,
            Action::BackfillFoldersUpdatedAt,
            Action::CreateRootNameIndex,
            Action::SetVersion(3)
        ]
    );
    assert_eq!(
        plan_step(4, &s),
        vec![Action::CreateTags, Action::CreateNoteTags, Action::SetVersion(4)]
    );
    assert_eq!(plan_step(0, &s), vec![]);
    assert_eq!(plan_step(5, &s), vec![]);
    let c = current();
    assert_eq!(plan_step(2, &c), vec![Action::SetVersion(2)]);
    assert_eq!(
        plan_step(3, &c),
        vec![
            Action::BackfillFoldersUpdatedAt,
            Action::CreateRootNameIndex,
            Action::SetVersion(3)
        ]
    );
}

#[test]
fn migrate_reaches_the_current_schema() {
    let mut s = Schema::new();
    let log = s.migrate();
    assert_eq!(s, current());
    assert_eq!(log.len(), 13);
    assert_eq!(log[0], Action::AddNotesPinned);
    assert_eq!(log[12], Action::SetVersion(4));
    let mut again = s;
    assert_eq!(again.migrate(), vec![]);
    assert_eq!(again, current());
}

#[test]
fn migrate_resumes_after_step_one() {
    let mut stopped = Schema::new();
    stopped.apply_all(&plan_step(1, &Schema::new()));
    assert_eq!(stopped.version, 1);
    assert!(stopped.notes_pinned && stopped.notes_sort_order);
    let log = stopped.migrate();
    assert_eq!(log[0], Action::AddFoldersParentId);
    assert_eq!(log.len(), 9);
    let mut whole = Schema::new();
    whole.migrate();
    assert_eq!(stopped, whole);
}

#[test]
fn migrate_finishes_a_step_that_stopped_half_way() {
    let mut stopped = Schema::new();
    stopped.apply(Action::AddNotesPinned);
    assert_eq!(stopped.version, 0);
    let log = stopped.migrate();
    assert_eq!(log[0], Action::AddNotesSortOrder);
    assert_eq!(stopped, current());
}

#[test]
fn migrate_leaves_a_later_version_alone() {
    let mut s = current();
    s.version = 9;
    let before = s;
    assert_eq!(s.migrate(), vec![]);
    assert_eq!(s, before);
}

#[test]
fn statements_of_actions() {
    assert_eq!(Action::SetVersion(3).statement(), None);
    assert_eq!(
        Action::AddNotesPinned.statement(),
        Some("ALTER TABLE notes ADD COLUMN pinned INTEGER NOT NULL DEFAULT 0")
    );
    assert_eq!(
        Action::BackfillFoldersUpdatedAt.statement(),
        Some("UPDATE folders SET updated_at = created_at WHERE updated_at IS NULL")
    );
    for a in [
        Action::AddNotesSortOrder,
        Action::BackfillSortOrder,
        Action::AddFoldersParentId,
        Action::AddFoldersUpdatedAt,
        Action::CreateRootNameIndex,
        Action::CreateTags,
        Action::CreateNoteTags,
    ] {
        assert!(a.statement().is_some());
    }
}
