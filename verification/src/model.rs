//! A model of the disk, and what a batch's plan does to it.
//!
//! The model keeps the set of directories that exist and a map from file
//! path to contents. Applying a plan to the model states exactly what the
//! batch writer asks of the filesystem; the lemmas here are the laws of the
//! writer: every entry's file holds its contents when targets are distinct,
//! the last of several entries with one target wins, and running a plan
//! twice leaves the same disk as running it once.

use vstd::prelude::*;

use crate::batch::{FileEntryView, WriteStepView, entry_steps, plan_of, lemma_plan_of_push};
use crate::paths::{joined_path, parent_path};

verus! {

/// What the batch writer sees of a disk: the directories that exist and the
/// contents of each file.
#[verifier::ext_equal]
pub ghost struct DiskModel {
    /// The directories that exist.
    pub dirs: Set<Seq<char>>,
    /// The contents of each file, by path.
    pub files: Map<Seq<char>, Seq<char>>,
}

/// One step's effect on the disk: creating a directory adds its path to the
/// directories (an existing one stays, unchanged); writing a file binds its
/// path to the new contents, whether or not the file existed.
pub open spec fn apply_step(m: DiskModel, s: WriteStepView) -> DiskModel {
    match s {
        WriteStepView::CreateDir { path } => DiskModel {
            dirs: m.dirs.insert(path),
            files: m.files,
        },
        WriteStepView::WriteFile { path, contents } => DiskModel {
            dirs: m.dirs,
            files: m.files.insert(path, contents),
        },
    }
}

/// The disk after carrying out `steps` in order, starting from `m`.
pub open spec fn apply_steps(m: DiskModel, steps: Seq<WriteStepView>) -> DiskModel
    decreases steps.len(),
{
    if steps.len() == 0 {
        m
    } else {
        apply_steps(apply_step(m, steps[0]), steps.drop_first())
    }
}

proof fn lemma_apply_steps_one(m: DiskModel, s: WriteStepView)
    ensures
        apply_steps(m, seq![s]) == apply_step(m, s),
{
    assert(seq![s].drop_first() =~= Seq::<WriteStepView>::empty());
    assert(apply_steps(apply_step(m, s), Seq::<WriteStepView>::empty()) == apply_step(m, s));
}

proof fn lemma_apply_steps_two(m: DiskModel, s0: WriteStepView, s1: WriteStepView)
    ensures
        apply_steps(m, seq![s0, s1]) == apply_step(apply_step(m, s0), s1),
{
    assert(seq![s0, s1].drop_first() =~= seq![s1]);
    lemma_apply_steps_one(apply_step(m, s0), s1);
}

proof fn lemma_apply_steps_concat(m: DiskModel, a: Seq<WriteStepView>, b: Seq<WriteStepView>)
    ensures
        apply_steps(m, a + b) == apply_steps(apply_steps(m, a), b),
    decreases a.len(),
{
    if a.len() == 0 {
        assert(a + b =~= b);
        assert(apply_steps(m, a) == m);
    } else {
        assert((a + b)[0] == a[0]);
        assert((a + b).drop_first() =~= a.drop_first() + b);
        lemma_apply_steps_concat(apply_step(m, a[0]), a.drop_first(), b);
        assert(apply_steps(m, a) == apply_steps(apply_step(m, a[0]), a.drop_first()));
    }
}

/// One entry's steps insert the entry's contents at its target and, when the
/// target has a parent, add that parent to the directories.
proof fn lemma_entry_steps_effect(m: DiskModel, base: Seq<char>, e: FileEntryView)
    ensures
        ({
            let after = apply_steps(m, entry_steps(base, e));
            let target = joined_path(base, e.relative_path);
            after.files == m.files.insert(target, e.contents) && after.dirs == (
            match parent_path(target) {
                Some(d) => m.dirs.insert(d),
                None => m.dirs,
            })
        }),
{
    let target = joined_path(base, e.relative_path);
    let write = WriteStepView::WriteFile { path: target, contents: e.contents };
    match parent_path(target) {
        Some(d) => {
            lemma_apply_steps_two(m, WriteStepView::CreateDir { path: d }, write);
        },
        None => {
            lemma_apply_steps_one(m, write);
        },
    }
}

/// The contents that the batch leaves at `path`: those of the last entry
/// whose target is `path`, or `None` when no entry targets it.
pub open spec fn last_write(
    base: Seq<char>,
    entries: Seq<FileEntryView>,
    path: Seq<char>,
) -> Option<Seq<char>>
    decreases entries.len(),
{
    if entries.len() == 0 {
        None
    } else if joined_path(base, entries.last().relative_path) == path {
        Some(entries.last().contents)
    } else {
        last_write(base, entries.drop_last(), path)
    }
}

/// What a batch's plan leaves at any one path: the last entry targeting the
/// path decides the contents; a path no entry targets keeps whatever the
/// disk held there before.
pub proof fn lemma_plan_files_at(
    m: DiskModel,
    base: Seq<char>,
    entries: Seq<FileEntryView>,
    path: Seq<char>,
)
    ensures
        ({
            let after = apply_steps(m, plan_of(base, entries));
            match last_write(base, entries, path) {
                Some(c) => after.files.contains_key(path) && after.files[path] == c,
                None => after.files.contains_key(path) == m.files.contains_key(path) && (
                m.files.contains_key(path) ==> after.files[path] == m.files[path]),
            }
        }),
    decreases entries.len(),
{
    if entries.len() > 0 {
        let es = entries.drop_last();
        let e = entries.last();
        assert(es.push(e) =~= entries);
        lemma_plan_of_push(base, es, e);
        lemma_apply_steps_concat(m, plan_of(base, es), entry_steps(base, e));
        lemma_plan_files_at(m, base, es, path);
        lemma_entry_steps_effect(apply_steps(m, plan_of(base, es)), base, e);
    }
}

/// The directories that a batch's plan creates.
pub open spec fn planned_dirs(base: Seq<char>, entries: Seq<FileEntryView>) -> Set<Seq<char>>
    decreases entries.len(),
{
    if entries.len() == 0 {
        Set::empty()
    } else {
        let rest = planned_dirs(base, entries.drop_last());
        match parent_path(joined_path(base, entries.last().relative_path)) {
            Some(d) => rest.insert(d),
            None => rest,
        }
    }
}

/// After a batch's plan runs, the directories are those that existed before
/// together with the ones the plan creates.
pub proof fn lemma_plan_dirs(m: DiskModel, base: Seq<char>, entries: Seq<FileEntryView>)
    ensures
        apply_steps(m, plan_of(base, entries)).dirs == m.dirs.union(planned_dirs(base, entries)),
    decreases entries.len(),
{
    if entries.len() == 0 {
        assert(m.dirs.union(planned_dirs(base, entries)) =~= m.dirs);
    } else {
        let es = entries.drop_last();
        let e = entries.last();
        assert(es.push(e) =~= entries);
        lemma_plan_of_push(base, es, e);
        lemma_apply_steps_concat(m, plan_of(base, es), entry_steps(base, e));
        lemma_plan_dirs(m, base, es);
        lemma_entry_steps_effect(apply_steps(m, plan_of(base, es)), base, e);
        match parent_path(joined_path(base, e.relative_path)) {
            Some(d) => {
                assert(m.dirs.union(planned_dirs(base, es)).insert(d) =~= m.dirs.union(
                    planned_dirs(base, entries),
                ));
            },
            None => {},
        }
    }
}

proof fn lemma_planned_dirs_contains(base: Seq<char>, entries: Seq<FileEntryView>, i: int)
    requires
        0 <= i < entries.len(),
        parent_path(joined_path(base, entries[i].relative_path)) is Some,
    ensures
        planned_dirs(base, entries).contains(
            parent_path(joined_path(base, entries[i].relative_path)).unwrap(),
        ),
    decreases entries.len(),
{
    if i < entries.len() - 1 {
        assert(entries.drop_last()[i] == entries[i]);
        lemma_planned_dirs_contains(base, entries.drop_last(), i);
    }
}

/// After a batch's plan runs, the parent directory of every entry's target
/// exists, whether or not it did before.
pub proof fn lemma_parent_created(
    m: DiskModel,
    base: Seq<char>,
    entries: Seq<FileEntryView>,
    i: int,
)
    requires
        0 <= i < entries.len(),
        parent_path(joined_path(base, entries[i].relative_path)) is Some,
    ensures
        apply_steps(m, plan_of(base, entries)).dirs.contains(
            parent_path(joined_path(base, entries[i].relative_path)).unwrap(),
        ),
{
    lemma_planned_dirs_contains(base, entries, i);
    lemma_plan_dirs(m, base, entries);
}

/// When the entries' targets are pairwise distinct and every step succeeds,
/// each entry's target ends up holding exactly that entry's contents.
pub proof fn lemma_distinct_targets_all_written(
    m: DiskModel,
    base: Seq<char>,
    entries: Seq<FileEntryView>,
    i: int,
)
    requires
        0 <= i < entries.len(),
        forall|a: int, b: int|
            0 <= a < entries.len() && 0 <= b < entries.len() && a != b ==> joined_path(
                base,
                entries[a].relative_path,
            ) != joined_path(base, entries[b].relative_path),
    ensures
        apply_steps(m, plan_of(base, entries)).files.contains_key(
            joined_path(base, entries[i].relative_path),
        ),
        apply_steps(m, plan_of(base, entries)).files[joined_path(base, entries[i].relative_path)]
            == entries[i].contents,
{
    lemma_last_entry_wins(m, base, entries, i);
}

/// When several entries share one target, the one processed last decides the
/// final contents at that target.
pub proof fn lemma_last_entry_wins(
    m: DiskModel,
    base: Seq<char>,
    entries: Seq<FileEntryView>,
    i: int,
)
    requires
        0 <= i < entries.len(),
        forall|j: int|
            i < j < entries.len() ==> joined_path(base, entries[j].relative_path) != joined_path(
                base,
                entries[i].relative_path,
            ),
    ensures
        apply_steps(m, plan_of(base, entries)).files.contains_key(
            joined_path(base, entries[i].relative_path),
        ),
        apply_steps(m, plan_of(base, entries)).files[joined_path(base, entries[i].relative_path)]
            == entries[i].contents,
{
    lemma_last_write_of_latest(base, entries, i);
    lemma_plan_files_at(m, base, entries, joined_path(base, entries[i].relative_path));
}

proof fn lemma_last_write_of_latest(base: Seq<char>, entries: Seq<FileEntryView>, i: int)
    requires
        0 <= i < entries.len(),
        forall|j: int|
            i < j < entries.len() ==> joined_path(base, entries[j].relative_path) != joined_path(
                base,
                entries[i].relative_path,
            ),
    ensures
        last_write(base, entries, joined_path(base, entries[i].relative_path)) == Some(
            entries[i].contents,
        ),
    decreases entries.len(),
{
    if i < entries.len() - 1 {
        assert(entries.drop_last()[i] == entries[i]);
        lemma_last_write_of_latest(base, entries.drop_last(), i);
    }
}

/// Running a batch's plan twice leaves the disk exactly as running it once
/// does: every write lays down the same contents again and every directory
/// creation finds its directory already present.
pub proof fn lemma_plan_idempotent(m: DiskModel, base: Seq<char>, entries: Seq<FileEntryView>)
    ensures
        apply_steps(apply_steps(m, plan_of(base, entries)), plan_of(base, entries)) == apply_steps(
            m,
            plan_of(base, entries),
        ),
{
    let once = apply_steps(m, plan_of(base, entries));
    let twice = apply_steps(once, plan_of(base, entries));
    lemma_plan_dirs(m, base, entries);
    lemma_plan_dirs(once, base, entries);
    assert(twice.dirs =~= once.dirs);
    assert forall|p: Seq<char>|
        (#[trigger] twice.files.dom().contains(p) <==> once.files.dom().contains(p)) && (
        once.files.dom().contains(p) ==> twice.files[p] == once.files[p]) by {
        lemma_plan_files_at(m, base, entries, p);
        lemma_plan_files_at(once, base, entries, p);
    }
    assert(twice.files =~= once.files);
    assert(twice =~= once);
}

} // verus!
