//! The batch file writer.
//!
//! A batch is a base directory and a list of entries, each a relative path
//! and the contents to write there. [`write_plan`] turns a batch into the
//! exact sequence of filesystem steps the writer performs: for each entry in
//! input order, create the target's parent directory (when it has one), then
//! write the target file. The caller carries the steps out in order and
//! stops at the first failure, reporting it with the message builders below.

use vstd::prelude::*;
use vstd::string::*;

use crate::paths::{joined_path, parent_path, join_path, parent_of};

verus! {

/// One entry of a batch: a path relative to the base directory, and the
/// contents to write there.
#[derive(Debug, Clone, PartialEq)]
pub struct FileEntry {
    /// Where to write, relative to the batch's base directory.
    pub relative_path: String,
    /// The bytes to write, as text.
    pub contents: String,
}

/// The mathematical value of a [`FileEntry`].
pub ghost struct FileEntryView {
    /// Where to write, relative to the batch's base directory.
    pub relative_path: Seq<char>,
    /// The bytes to write, as text.
    pub contents: Seq<char>,
}

impl View for FileEntry {
    type V = FileEntryView;

    open spec fn view(&self) -> FileEntryView {
        FileEntryView { relative_path: self.relative_path@, contents: self.contents@ }
    }
}

impl DeepView for FileEntry {
    type V = FileEntryView;

    open spec fn deep_view(&self) -> FileEntryView {
        self.view()
    }
}

/// One filesystem step of a batch write.
#[derive(Debug, Clone, PartialEq)]
pub enum WriteStep {
    /// Create this directory and any missing ancestor of it; succeed if it
    /// already exists.
    CreateDir {
        /// The directory to create.
        path: String,
    },
    /// Create the file at `path`, truncating it if it exists, and write
    /// `contents` to it in full.
    WriteFile {
        /// The file to write.
        path: String,
        /// What to write.
        contents: String,
    },
}

/// The mathematical value of a [`WriteStep`].
pub ghost enum WriteStepView {
    /// Create this directory and any missing ancestor of it.
    CreateDir { path: Seq<char> },
    /// Create or truncate the file at `path` and write `contents` to it.
    WriteFile { path: Seq<char>, contents: Seq<char> },
}

impl View for WriteStep {
    type V = WriteStepView;

    open spec fn view(&self) -> WriteStepView {
        match self {
            WriteStep::CreateDir { path } => WriteStepView::CreateDir { path: path@ },
            WriteStep::WriteFile { path, contents } => WriteStepView::WriteFile {
                path: path@,
                contents: contents@,
            },
        }
    }
}

impl DeepView for WriteStep {
    type V = WriteStepView;

    open spec fn deep_view(&self) -> WriteStepView {
        self.view()
    }
}

/// The steps that one entry contributes to the plan: its parent directory's
/// creation when the target has a parent, then the write of the target
/// itself.
pub open spec fn entry_steps(base: Seq<char>, e: FileEntryView) -> Seq<WriteStepView> {
    let target = joined_path(base, e.relative_path);
    let write = WriteStepView::WriteFile { path: target, contents: e.contents };
    match parent_path(target) {
        Some(dir) => seq![WriteStepView::CreateDir { path: dir }, write],
        None => seq![write],
    }
}

/// The full plan of a batch: the steps of each entry, in input order.
pub open spec fn plan_of(base: Seq<char>, entries: Seq<FileEntryView>) -> Seq<WriteStepView>
    decreases entries.len(),
{
    if entries.len() == 0 {
        Seq::empty()
    } else {
        entry_steps(base, entries[0]) + plan_of(base, entries.drop_first())
    }
}

/// Appending one entry appends exactly that entry's steps to the plan.
pub proof fn lemma_plan_of_push(base: Seq<char>, entries: Seq<FileEntryView>, e: FileEntryView)
    ensures
        plan_of(base, entries.push(e)) == plan_of(base, entries) + entry_steps(base, e),
    decreases entries.len(),
{
    if entries.len() == 0 {
        assert(entries.push(e).drop_first() =~= Seq::<FileEntryView>::empty());
        assert(plan_of(base, entries.push(e).drop_first()) == Seq::<WriteStepView>::empty());
        assert(entries.push(e)[0] == e);
        assert(plan_of(base, entries.push(e)) == entry_steps(base, e) + Seq::<
            WriteStepView,
        >::empty());
        assert(entry_steps(base, e) + Seq::<WriteStepView>::empty() =~= plan_of(base, entries)
            + entry_steps(base, e));
    } else {
        lemma_plan_of_push(base, entries.drop_first(), e);
        assert(entries.push(e).drop_first() =~= entries.drop_first().push(e));
        assert(entries.push(e)[0] == entries[0]);
        let head = entry_steps(base, entries[0]);
        let rest = plan_of(base, entries.drop_first());
        let last = entry_steps(base, e);
        assert(plan_of(base, entries.push(e)) == head + (rest + last));
        assert(plan_of(base, entries) == head + rest);
        assert(head + (rest + last) =~= (head + rest) + last);
    }
}

/// Builds the plan for writing `entries` under `base`: for each entry in
/// input order, a step creating its target's parent directory (when the
/// target has one) followed by the step writing the target.
pub fn write_plan(base: &str, entries: &Vec<FileEntry>) -> (steps: Vec<WriteStep>)
    ensures
        steps.deep_view() == plan_of(base@, entries.deep_view()),
{
    let ghost evs = entries.deep_view();
    let mut steps: Vec<WriteStep> = Vec::new();
    let mut idx: usize = 0;
    while idx < entries.len()
        invariant
            idx <= entries.len(),
            evs == entries.deep_view(),
            evs.len() == entries.len(),
            steps.deep_view() == plan_of(base@, evs.take(idx as int)),
        decreases entries.len() - idx,
    {
        let ghost before = steps.deep_view();
        let entry = &entries[idx];
        let target = join_path(base, entry.relative_path.as_str());
        match parent_of(target.as_str()) {
            Some(dir) => {
                steps.push(WriteStep::CreateDir { path: dir });
            },
            None => {},
        }
        steps.push(WriteStep::WriteFile { path: target, contents: entry.contents.clone() });
        proof {
            assert(steps.deep_view() =~= before + entry_steps(base@, evs[idx as int]));
            lemma_plan_of_push(base@, evs.take(idx as int), evs[idx as int]);
            assert(evs.take(idx as int).push(evs[idx as int]) =~= evs.take(idx as int + 1));
        }
        idx = idx + 1;
    }
    proof {
        assert(evs.take(entries.len() as int) =~= evs);
    }
    steps
}

/// The message reported when creating a directory fails: the directory's
/// path in double quotes, then the underlying cause.
pub open spec fn directory_failure_text(path: Seq<char>, cause: Seq<char>) -> Seq<char> {
    "Failed to create directory \""@ + path + "\": "@ + cause
}

/// The message reported when creating the target file fails.
pub open spec fn create_failure_text(path: Seq<char>, cause: Seq<char>) -> Seq<char> {
    "Failed to create file \""@ + path + "\": "@ + cause
}

/// The message reported when writing the target file's contents fails.
pub open spec fn write_failure_text(path: Seq<char>, cause: Seq<char>) -> Seq<char> {
    "Failed to write file \""@ + path + "\": "@ + cause
}

/// Builds the error message for a failed [`WriteStep::CreateDir`] step.
pub fn directory_failure_message(path: &str, cause: &str) -> (m: String)
    ensures
        m@ == directory_failure_text(path@, cause@),
{
    let m = String::from_str("Failed to create directory \"").concat(path).concat(
        "\": ",
    ).concat(cause);
    proof {
        assert(m@ =~= directory_failure_text(path@, cause@));
    }
    m
}

/// Builds the error message for a [`WriteStep::WriteFile`] step whose file
/// could not be created.
pub fn create_failure_message(path: &str, cause: &str) -> (m: String)
    ensures
        m@ == create_failure_text(path@, cause@),
{
    let m = String::from_str("Failed to create file \"").concat(path).concat("\": ").concat(
        cause,
    );
    proof {
        assert(m@ =~= create_failure_text(path@, cause@));
    }
    m
}

/// Builds the error message for a [`WriteStep::WriteFile`] step whose
/// contents could not be written.
pub fn write_failure_message(path: &str, cause: &str) -> (m: String)
    ensures
        m@ == write_failure_text(path@, cause@),
{
    let m = String::from_str("Failed to write file \"").concat(path).concat("\": ").concat(
        cause,
    );
    proof {
        assert(m@ =~= write_failure_text(path@, cause@));
    }
    m
}

} // verus!
