//! The schema of a database file and its versioned migrations.
//!
//! A file carries one integer counter. Migration step `n` runs only while the
//! counter is below `n`, and ends by setting the counter to `n`. Inside a
//! step every change that adds a column first looks whether the column is
//! there, so a step that was interrupted can be run again.

use vstd::prelude::*;

verus! {

/// The schema version that initialization leads to.
pub const CURRENT_VERSION: i32 = 4;

/// What a database file holds of the parts of the schema that migrations add.
#[derive(Clone, Copy, Debug, PartialEq, Eq, Structural)]
pub struct Schema {
    /// The persisted migration counter.
    pub version: i32,
    /// Notes have the column `pinned`.
    pub notes_pinned: bool,
    /// Notes have the column `sort_order`.
    pub notes_sort_order: bool,
    /// Folders have the column `parent_id`.
    pub folders_parent_id: bool,
    /// Folders have the column `updated_at`.
    pub folders_updated_at: bool,
    /// The index that keeps root-level folder names unique is there.
    pub root_name_index: bool,
    /// The table of tags is there.
    pub tags: bool,
    /// The table that joins notes and tags is there.
    pub note_tags: bool,
}

/// One change that a migration step makes to a file.
#[derive(Clone, Copy, Debug, PartialEq, Eq, Structural)]
pub enum Action {
    AddNotesPinned,
    AddNotesSortOrder,
    /// Ranks the notes of each folder by descending `updated_at`.
    BackfillSortOrder,
    AddFoldersParentId,
    AddFoldersUpdatedAt,
    /// Copies `created_at` into every `updated_at` that is still empty.
    BackfillFoldersUpdatedAt,
    CreateRootNameIndex,
    CreateTags,
    CreateNoteTags,
    /// Sets the migration counter.
    SetVersion(i32),
}

/// The schema after `a` was applied to a file with schema `s`.
pub open spec fn apply(s: Schema, a: Action) -> Schema {
    match a {
        Action::AddNotesPinned => Schema { notes_pinned: true, ..s },
        Action::AddNotesSortOrder => Schema { notes_sort_order: true, ..s },
        Action::BackfillSortOrder => s,
        Action::AddFoldersParentId => Schema { folders_parent_id: true, ..s },
        Action::AddFoldersUpdatedAt => Schema { folders_updated_at: true, ..s },
        Action::BackfillFoldersUpdatedAt => s,
        Action::CreateRootNameIndex => Schema { root_name_index: true, ..s },
        Action::CreateTags => Schema { tags: true, ..s },
        Action::CreateNoteTags => Schema { note_tags: true, ..s },
        Action::SetVersion(v) => Schema { version: v, ..s },
    }
}

/// The schema after the actions of `acts` were applied in order.
pub open spec fn apply_all(s: Schema, acts: Seq<Action>) -> Schema
    decreases acts.len(),
{
    if acts.len() == 0 {
        s
    } else {
        apply_all(apply(s, acts[0]), acts.drop_first())
    }
}

/// `acts` with `a` in front if `cond` holds.
pub open spec fn when(cond: bool, a: Action, acts: Seq<Action>) -> Seq<Action> {
    if cond {
        seq![a] + acts
    } else {
        acts
    }
}

/// The actions of migration step `step` on a file whose columns are as `s`
/// says. Columns that are there are not added again; the sort order is
/// ranked only where its column is new.
pub open spec fn step_plan(step: int, s: Schema) -> Seq<Action> {
    if step == 1 {
        when(
            !s.notes_pinned,
            Action::AddNotesPinned,
            when(
                !s.notes_sort_order,
                Action::AddNotesSortOrder,
                when(!s.notes_sort_order, Action::BackfillSortOrder, seq![Action::SetVersion(1)]),
            ),
        )
    } else if step == 2 {
        when(!s.folders_parent_id, Action::AddFoldersParentId, seq![Action::SetVersion(2)])
    } else if step == 3 {
        when(
            !s.folders_updated_at,
            Action::AddFoldersUpdatedAt,
            seq![
                Action::BackfillFoldersUpdatedAt,
                Action::CreateRootNameIndex,
                Action::SetVersion(3),
            ],
        )
    } else if step == 4 {
        seq![Action::CreateTags, Action::CreateNoteTags, Action::SetVersion(4)]
    } else {
        Seq::empty()
    }
}

/// The schema after step `step` was considered: the step runs only while the
/// counter is below it.
pub open spec fn run_step(s: Schema, step: int) -> Schema {
    if s.version < step {
        apply_all(s, step_plan(step, s))
    } else {
        s
    }
}

/// The schema after the steps `1..=upto` were considered in ascending order.
pub open spec fn run_steps(s: Schema, upto: int) -> Schema
    decreases upto,
{
    if upto <= 0 {
        s
    } else {
        run_step(run_steps(s, upto - 1), upto)
    }
}

/// The schema that initialization leaves.
pub open spec fn migrated(s: Schema) -> Schema {
    run_steps(s, 4)
}

/// The actions of step `step` on a file as `s` says, or none where the
/// counter of `s` is not below the step.
pub open spec fn pending(s: Schema, step: int) -> Seq<Action> {
    if s.version < step {
        step_plan(step, s)
    } else {
        Seq::empty()
    }
}

/// All that initialization does to a file as `s` says: the actions of every
/// step that is above the counter, in ascending order of the steps.
pub open spec fn full_plan(s: Schema) -> Seq<Action> {
    pending(s, 1) + pending(s, 2) + pending(s, 3) + pending(s, 4)
}

/// The schema of a file that no migration has touched.
pub open spec fn blank() -> Schema {
    Schema {
        version: 0,
        notes_pinned: false,
        notes_sort_order: false,
        folders_parent_id: false,
        folders_updated_at: false,
        root_name_index: false,
        tags: false,
        note_tags: false,
    }
}

/// The current schema.
pub open spec fn current() -> Schema {
    Schema {
        version: 4,
        notes_pinned: true,
        notes_sort_order: true,
        folders_parent_id: true,
        folders_updated_at: true,
        root_name_index: true,
        tags: true,
        note_tags: true,
    }
}

/// A counter at or above `n` vouches for what step `n` adds.
pub open spec fn consistent(s: Schema) -> bool {
    &&& s.version >= 1 ==> s.notes_pinned && s.notes_sort_order
    &&& s.version >= 2 ==> s.folders_parent_id
    &&& s.version >= 3 ==> s.folders_updated_at && s.root_name_index
    &&& s.version >= 4 ==> s.tags && s.note_tags
}

proof fn lemma_apply_step(step: int, s: Schema)
    requires
        1 <= step <= 4,
    ensures
        ({
            let t = apply_all(s, step_plan(step, s));
            &&& t.version == step
            &&& t.notes_pinned == (s.notes_pinned || step == 1)
            &&& t.notes_sort_order == (s.notes_sort_order || step == 1)
            &&& t.folders_parent_id == (s.folders_parent_id || step == 2)
            &&& t.folders_updated_at == (s.folders_updated_at || step == 3)
            &&& t.root_name_index == (s.root_name_index || step == 3)
            &&& t.tags == (s.tags || step == 4)
            &&& t.note_tags == (s.note_tags || step == 4)
        }),
{
    reveal_with_fuel(apply_all, 6);
    let p = step_plan(step, s);
    assert(p.len() <= 5);
    if p.len() >= 1 {
        assert(p.drop_first().len() == p.len() - 1);
        if p.len() >= 2 {
            assert(p.drop_first().drop_first().len() == p.len() - 2);
            if p.len() >= 3 {
                assert(p.drop_first().drop_first().drop_first().len() == p.len() - 3);
                if p.len() >= 4 {
                    assert(p.drop_first().drop_first().drop_first().drop_first().len() == p.len()
                        - 4);
                }
            }
        }
    }
}

/// Initialization brings every consistent file that is not from a later
/// version to the current schema; a file from a later version is left as it
/// is.
pub proof fn lemma_migrated_is_current(s: Schema)
    requires
        consistent(s),
    ensures
        s.version <= 4 ==> migrated(s) == current(),
        s.version > 4 ==> migrated(s) == s,
{
    reveal_with_fuel(run_steps, 5);
    lemma_apply_step(1, s);
    let s1 = run_step(s, 1);
    lemma_apply_step(2, s1);
    let s2 = run_step(s1, 2);
    lemma_apply_step(3, s2);
    let s3 = run_step(s2, 3);
    lemma_apply_step(4, s3);
}

/// A file on which initialization stopped right after step `done` ends,
/// when initialization runs again, in the schema of an uninterrupted run.
pub proof fn lemma_resume_after_step(s: Schema, done: int)
    requires
        0 <= done <= 4,
    ensures
        migrated(run_steps(s, done)) == migrated(s),
{
    reveal_with_fuel(run_steps, 5);
    lemma_apply_step(1, s);
    let s1 = run_step(s, 1);
    lemma_apply_step(2, s1);
    let s2 = run_step(s1, 2);
    lemma_apply_step(3, s2);
    let s3 = run_step(s2, 3);
    lemma_apply_step(4, s3);
    let r = run_steps(s, done);
    lemma_apply_step(1, r);
    let r1 = run_step(r, 1);
    lemma_apply_step(2, r1);
    let r2 = run_step(r1, 2);
    lemma_apply_step(3, r2);
    let r3 = run_step(r2, 3);
    lemma_apply_step(4, r3);
}

/// What a start of the actions of a step leaves: the counter as it was
/// unless the start is the whole step, and no column less than before.
proof fn lemma_apply_part(step: int, s: Schema, done: int)
    requires
        1 <= step <= 4,
        0 <= done <= step_plan(step, s).len(),
    ensures
        ({
            let t = apply_all(s, step_plan(step, s).take(done));
            &&& t.version == if done == step_plan(step, s).len() {
                step
            } else {
                s.version as int
            }
            &&& s.notes_pinned ==> t.notes_pinned
            &&& s.notes_sort_order ==> t.notes_sort_order
            &&& s.folders_parent_id ==> t.folders_parent_id
            &&& s.folders_updated_at ==> t.folders_updated_at
            &&& s.root_name_index ==> t.root_name_index
            &&& s.tags ==> t.tags
            &&& s.note_tags ==> t.note_tags
            &&& step != 1 ==> t.notes_pinned == s.notes_pinned && t.notes_sort_order
                == s.notes_sort_order
            &&& step != 2 ==> t.folders_parent_id == s.folders_parent_id
            &&& step != 3 ==> t.folders_updated_at == s.folders_updated_at && t.root_name_index
                == s.root_name_index
            &&& step != 4 ==> t.tags == s.tags && t.note_tags == s.note_tags
            &&& done == step_plan(step, s).len() ==> t == apply_all(s, step_plan(step, s))
        }),
{
    reveal_with_fuel(apply_all, 6);
    let p = step_plan(step, s).take(done);
    if done == step_plan(step, s).len() {
        assert(p =~= step_plan(step, s));
    }
    assert(p.len() == done);
    assert(p.len() <= 5);
    assert forall|i: int| 0 <= i < p.len() implies p[i] == step_plan(step, s)[i] by {}
    if p.len() >= 1 {
        assert(p.drop_first().len() == p.len() - 1);
        assert(p.drop_first()[0] == p[1] || p.len() < 2);
        if p.len() >= 2 {
            assert(p.drop_first().drop_first().len() == p.len() - 2);
            if p.len() >= 3 {
                assert(p.drop_first().drop_first().drop_first().len() == p.len() - 3);
                if p.len() >= 4 {
                    assert(p.drop_first().drop_first().drop_first().drop_first().len() == p.len()
                        - 4);
                }
            }
        }
    }
}

/// A file on which initialization stopped inside step `step`, after `done`
/// of the step's actions, ends, when initialization runs again, in the
/// schema of an uninterrupted run.
pub proof fn lemma_resume_inside_step(s: Schema, step: int, done: int)
    requires
        1 <= step <= 4,
        run_steps(s, step - 1).version < step,
        0 <= done <= step_plan(step, run_steps(s, step - 1)).len(),
    ensures
        migrated(
            apply_all(
                run_steps(s, step - 1),
                step_plan(step, run_steps(s, step - 1)).take(done),
            ),
        ) == migrated(s),
{
    let r = run_steps(s, step - 1);
    let t = apply_all(r, step_plan(step, r).take(done));
    lemma_resume_after_step(s, step - 1);
    lemma_apply_part(step, r, done);
    reveal_with_fuel(run_steps, 5);
    lemma_apply_step(1, s);
    let s1 = run_step(s, 1);
    lemma_apply_step(2, s1);
    let s2 = run_step(s1, 2);
    lemma_apply_step(3, s2);
    lemma_apply_step(1, r);
    let r1 = run_step(r, 1);
    lemma_apply_step(2, r1);
    let r2 = run_step(r1, 2);
    lemma_apply_step(3, r2);
    let r3 = run_step(r2, 3);
    lemma_apply_step(4, r3);
    lemma_apply_step(1, t);
    let t1 = run_step(t, 1);
    lemma_apply_step(2, t1);
    let t2 = run_step(t1, 2);
    lemma_apply_step(3, t2);
    let t3 = run_step(t2, 3);
    lemma_apply_step(4, t3);
    let tf = run_step(t3, 4);
    let rf = run_step(r3, 4);
    assert(migrated(t) == tf);
    assert(migrated(r) == rf);
    assert(r.version == step - 1 || (step == 1 && r.version < 1));
    assert(tf.version == rf.version);
    assert(tf.notes_pinned == rf.notes_pinned);
    assert(tf.notes_sort_order == rf.notes_sort_order);
    assert(tf.folders_parent_id == rf.folders_parent_id);
    assert(tf.folders_updated_at == rf.folders_updated_at);
    assert(tf.root_name_index == rf.root_name_index);
    assert(tf.tags == rf.tags);
    assert(tf.note_tags == rf.note_tags);
}

/// Initialization run twice leaves what one run leaves.
pub proof fn lemma_migrated_twice(s: Schema)
    ensures
        migrated(migrated(s)) == migrated(s),
{
    lemma_resume_after_step(s, 4);
}

/// A column whose presence initialization asks the file for.
#[derive(Clone, Copy, Debug, PartialEq, Eq, Structural)]
pub enum Probe {
    NotesPinned,
    NotesSortOrder,
    FoldersParentId,
    FoldersUpdatedAt,
}

/// The query that the file accepts exactly where the column is there: it
/// names the column and reads no row.
pub open spec fn probe_sql(p: Probe) -> Seq<char> {
    match p {
        Probe::NotesPinned => "SELECT pinned FROM notes LIMIT 0"@,
        Probe::NotesSortOrder => "SELECT sort_order FROM notes LIMIT 0"@,
        Probe::FoldersParentId => "SELECT parent_id FROM folders LIMIT 0"@,
        Probe::FoldersUpdatedAt => "SELECT updated_at FROM folders LIMIT 0"@,
    }
}

impl Probe {
    /// The query that asks for the column.
    pub fn statement(&self) -> (r: &'static str)
        ensures
            r@ == probe_sql(*self),
    {
        match self {
            Probe::NotesPinned => "SELECT pinned FROM notes LIMIT 0",
            Probe::NotesSortOrder => "SELECT sort_order FROM notes LIMIT 0",
            Probe::FoldersParentId => "SELECT parent_id FROM folders LIMIT 0",
            Probe::FoldersUpdatedAt => "SELECT updated_at FROM folders LIMIT 0",
        }
    }
}

/// What is found of a file is what initialization is to leave: the counter
/// stands at the current version or beyond, and the four columns that the
/// migrations add are there.
pub open spec fn found_current(s: Schema) -> bool {
    &&& s.version >= CURRENT_VERSION
    &&& s.notes_pinned
    &&& s.notes_sort_order
    &&& s.folders_parent_id
    &&& s.folders_updated_at
}

/// Whether what is found of a file is what initialization is to leave.
pub fn is_found_current(s: &Schema) -> (r: bool)
    ensures
        r == found_current(*s),
{
    s.version >= CURRENT_VERSION && s.notes_pinned && s.notes_sort_order && s.folders_parent_id
        && s.folders_updated_at
}

/// Where a file is found current, initialization has nothing left to do.
pub proof fn lemma_found_current_needs_nothing(s: Schema)
    requires
        found_current(s),
    ensures
        full_plan(s) == Seq::<Action>::empty(),
        migrated(s) == s,
{
    assert(full_plan(s) =~= Seq::<Action>::empty());
    lemma_full_plan_migrates(s);
}

/// The SQL text of `a`; empty for `SetVersion`, which goes through the
/// pragma of the counter.
pub open spec fn action_sql(a: Action) -> Seq<char> {
    match a {
        Action::AddNotesPinned => "ALTER TABLE notes ADD COLUMN pinned INTEGER NOT NULL DEFAULT 0"@,
        Action::AddNotesSortOrder => "ALTER TABLE notes ADD COLUMN sort_order INTEGER NOT NULL DEFAULT 0"@,
        Action::BackfillSortOrder => "WITH ranked AS (SELECT id, ROW_NUMBER() OVER (PARTITION BY folder_id ORDER BY updated_at DESC) - 1 AS rn FROM notes) UPDATE notes SET sort_order = (SELECT rn FROM ranked WHERE ranked.id = notes.id)"@,
        Action::AddFoldersParentId => "ALTER TABLE folders ADD COLUMN parent_id TEXT REFERENCES folders(id) ON DELETE SET NULL"@,
        Action::AddFoldersUpdatedAt => "ALTER TABLE folders ADD COLUMN updated_at INTEGER"@,
        Action::BackfillFoldersUpdatedAt => "UPDATE folders SET updated_at = created_at WHERE updated_at IS NULL"@,
        Action::CreateRootNameIndex => "CREATE UNIQUE INDEX IF NOT EXISTS idx_folders_name_root ON folders(name) WHERE parent_id IS NULL"@,
        Action::CreateTags => "CREATE TABLE IF NOT EXISTS tags (id TEXT PRIMARY KEY, name TEXT NOT NULL UNIQUE, color TEXT DEFAULT '#888888')"@,
        Action::CreateNoteTags => "CREATE TABLE IF NOT EXISTS note_tags (note_id TEXT NOT NULL REFERENCES notes(id) ON DELETE CASCADE, tag_id TEXT NOT NULL REFERENCES tags(id) ON DELETE CASCADE, PRIMARY KEY (note_id, tag_id))"@,
        Action::SetVersion(_) => Seq::empty(),
    }
}

impl Action {
    /// The statement that carries this action out, or `None` for
    /// `SetVersion`.
    pub fn statement(&self) -> (r: Option<&'static str>)
        ensures
            (*self is SetVersion) == (r is None),
            r matches Some(sql) ==> sql@ == action_sql(*self),
    {
        match self {
            Action::AddNotesPinned => Some(
                "ALTER TABLE notes ADD COLUMN pinned INTEGER NOT NULL DEFAULT 0",
            ),
            Action::AddNotesSortOrder => Some(
                "ALTER TABLE notes ADD COLUMN sort_order INTEGER NOT NULL DEFAULT 0",
            ),
            Action::BackfillSortOrder => Some(
                "WITH ranked AS (SELECT id, ROW_NUMBER() OVER (PARTITION BY folder_id ORDER BY updated_at DESC) - 1 AS rn FROM notes) UPDATE notes SET sort_order = (SELECT rn FROM ranked WHERE ranked.id = notes.id)",
            ),
            Action::AddFoldersParentId => Some(
                "ALTER TABLE folders ADD COLUMN parent_id TEXT REFERENCES folders(id) ON DELETE SET NULL",
            ),
            Action::AddFoldersUpdatedAt => Some("ALTER TABLE folders ADD COLUMN updated_at INTEGER"),
            Action::BackfillFoldersUpdatedAt => Some(
                "UPDATE folders SET updated_at = created_at WHERE updated_at IS NULL",
            ),
            Action::CreateRootNameIndex => Some(
                "CREATE UNIQUE INDEX IF NOT EXISTS idx_folders_name_root ON folders(name) WHERE parent_id IS NULL",
            ),
            Action::CreateTags => Some(
                "CREATE TABLE IF NOT EXISTS tags (id TEXT PRIMARY KEY, name TEXT NOT NULL UNIQUE, color TEXT DEFAULT '#888888')",
            ),
            Action::CreateNoteTags => Some(
                "CREATE TABLE IF NOT EXISTS note_tags (note_id TEXT NOT NULL REFERENCES notes(id) ON DELETE CASCADE, tag_id TEXT NOT NULL REFERENCES tags(id) ON DELETE CASCADE, PRIMARY KEY (note_id, tag_id))",
            ),
            Action::SetVersion(_) => None,
        }
    }
}

/// The actions that migration step `step` takes on a file whose columns are
/// as `s` says. A number that names no step gives no action.
pub fn plan_step(step: u8, s: &Schema) -> (r: Vec<Action>)
    ensures
        r@ == step_plan(step as int, *s),
{
    let mut acts: Vec<Action> = Vec::new();
    if step == 1 {
        if !s.notes_pinned {
            acts.push(Action::AddNotesPinned);
        }
        if !s.notes_sort_order {
            acts.push(Action::AddNotesSortOrder);
            acts.push(Action::BackfillSortOrder);
        }
        acts.push(Action::SetVersion(1));
    } else if step == 2 {
        if !s.folders_parent_id {
            acts.push(Action::AddFoldersParentId);
        }
        acts.push(Action::SetVersion(2));
    } else if step == 3 {
        if !s.folders_updated_at {
            acts.push(Action::AddFoldersUpdatedAt);
        }
        acts.push(Action::BackfillFoldersUpdatedAt);
        acts.push(Action::CreateRootNameIndex);
        acts.push(Action::SetVersion(3));
    } else if step == 4 {
        acts.push(Action::CreateTags);
        acts.push(Action::CreateNoteTags);
        acts.push(Action::SetVersion(4));
    }
    assert(acts@ =~= step_plan(step as int, *s));
    acts
}

impl Schema {
    /// The schema of a file that no migration has touched.
    pub fn new() -> (r: Schema)
        ensures
            r == blank(),
    {
        Schema {
            version: 0,
            notes_pinned: false,
            notes_sort_order: false,
            folders_parent_id: false,
            folders_updated_at: false,
            root_name_index: false,
            tags: false,
            note_tags: false,
        }
    }

    /// Records the effect of `a`.
    pub fn apply(&mut self, a: Action)
        ensures
            *final(self) == apply(*old(self), a),
    {
        match a {
            Action::AddNotesPinned => {
                self.notes_pinned = true;
            },
            Action::AddNotesSortOrder => {
                self.notes_sort_order = true;
            },
            Action::BackfillSortOrder => {},
            Action::AddFoldersParentId => {
                self.folders_parent_id = true;
            },
            Action::AddFoldersUpdatedAt => {
                self.folders_updated_at = true;
            },
            Action::BackfillFoldersUpdatedAt => {},
            Action::CreateRootNameIndex => {
                self.root_name_index = true;
            },
            Action::CreateTags => {
                self.tags = true;
            },
            Action::CreateNoteTags => {
                self.note_tags = true;
            },
            Action::SetVersion(v) => {
                self.version = v;
            },
        }
    }

    /// Records the effect of every action of `acts`, in order.
    pub fn apply_all(&mut self, acts: &Vec<Action>)
        ensures
            *final(self) == apply_all(*old(self), acts@),
    {
        let mut i: usize = 0;
        assert(acts@.skip(0) =~= acts@);
        while i < acts.len()
            invariant
                i <= acts.len(),
                apply_all(*self, acts@.skip(i as int)) == apply_all(*old(self), acts@),
            decreases acts.len() - i,
        {
            proof {
                let rest = acts@.skip(i as int);
                assert(rest[0] == acts@[i as int]);
                assert(rest.drop_first() =~= acts@.skip(i + 1));
            }
            self.apply(acts[i]);
            i += 1;
        }
        assert(acts@.skip(i as int).len() == 0);
    }

    /// Runs every migration step whose number is above the counter and
    /// returns the actions taken, in order.
    pub fn migrate(&mut self) -> (log: Vec<Action>)
        ensures
            *final(self) == migrated(*old(self)),
            log@ == full_plan(*old(self)),
    {
        let log = plan_migration(self);
        self.apply_all(&log);
        log
    }
}

/// All that initialization does to a file as `s` says, in order.
pub fn plan_migration(s: &Schema) -> (r: Vec<Action>)
    ensures
        r@ == full_plan(*s),
        apply_all(*s, r@) == migrated(*s),
{
    let mut plan: Vec<Action> = Vec::new();
    let mut step: u8 = 1;
    while step <= 4
        invariant
            1 <= step <= 5,
            step == 1 ==> plan@ == Seq::<Action>::empty(),
            step == 2 ==> plan@ == pending(*s, 1),
            step == 3 ==> plan@ == pending(*s, 1) + pending(*s, 2),
            step == 4 ==> plan@ == pending(*s, 1) + pending(*s, 2) + pending(*s, 3),
            step == 5 ==> plan@ == full_plan(*s),
        decreases 5 - step,
    {
        if s.version < step as i32 {
            let mut part = plan_step(step, s);
            plan.append(&mut part);
        }
        assert(plan@ + Seq::<Action>::empty() =~= plan@);
        assert(Seq::<Action>::empty() + pending(*s, 1) =~= pending(*s, 1));
        step += 1;
    }
    proof {
        lemma_full_plan_migrates(*s);
    }
    plan
}

/// Carrying out the full plan is running the steps one by one.
pub proof fn lemma_full_plan_migrates(s: Schema)
    ensures
        apply_all(s, full_plan(s)) == migrated(s),
{
    reveal_with_fuel(run_steps, 5);
    let one = pending(s, 1);
    let two = pending(s, 2);
    let three = pending(s, 3);
    let four = pending(s, 4);
    let s1 = run_step(s, 1);
    let s2 = run_step(s1, 2);
    let s3 = run_step(s2, 3);
    let s4 = run_step(s3, 4);
    lemma_apply_step(1, s);
    lemma_apply_step(2, s1);
    lemma_apply_step(3, s2);
    lemma_apply_step(4, s3);
    assert(apply_all(s, Seq::<Action>::empty()) == s);
    assert(apply_all(s1, Seq::<Action>::empty()) == s1);
    assert(apply_all(s2, Seq::<Action>::empty()) == s2);
    assert(apply_all(s3, Seq::<Action>::empty()) == s3);
    assert(s1 == apply_all(s, one));
    assert(step_plan(2, s1) == step_plan(2, s));
    assert(s2 == apply_all(s1, two));
    assert(step_plan(3, s2) == step_plan(3, s));
    assert(s3 == apply_all(s2, three));
    assert(step_plan(4, s3) == step_plan(4, s));
    assert(s4 == apply_all(s3, four));
    lemma_apply_all_concat(s, one, two);
    lemma_apply_all_concat(s, one + two, three);
    lemma_apply_all_concat(s, one + two + three, four);
}

/// Applying `a` and then `b` is applying their concatenation.
pub proof fn lemma_apply_all_concat(s: Schema, a: Seq<Action>, b: Seq<Action>)
    ensures
        apply_all(s, a + b) == apply_all(apply_all(s, a), b),
    decreases a.len(),
{
    if a.len() == 0 {
        assert(a + b =~= b);
    } else {
        assert((a + b)[0] == a[0]);
        assert((a + b).drop_first() =~= a.drop_first() + b);
        lemma_apply_all_concat(apply(s, a[0]), a.drop_first(), b);
    }
}

} // verus!
