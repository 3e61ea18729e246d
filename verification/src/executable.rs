//! Moving the running executable out of the way, which Windows asks for before it is replaced.

use vstd::prelude::*;
use regex::Regex;
use crate::text::Text;
use crate::views::views;

verus! {

/// A file beside the running executable.
#[derive(Debug, PartialEq, Eq)]
pub enum ExecFile {
    /// The running executable itself.
    Current,
    /// The file of the same name with this extension in place of its own.
    Saved { extension: String },
}

/// What an [`ExecFile`] holds.
pub enum ExecFileView {
    Current,
    Saved { extension: Text },
}

impl View for ExecFile {
    type V = ExecFileView;

    open spec fn view(&self) -> ExecFileView {
        match self {
            ExecFile::Current => ExecFileView::Current,
            ExecFile::Saved { extension } => ExecFileView::Saved { extension: extension@ },
        }
    }
}

/// A change to the files beside the running executable.
#[derive(Debug, PartialEq, Eq)]
pub enum FileStep {
    /// Renames a file, over the one that has the new name.
    Rename { from: ExecFile, to: ExecFile },
    /// Creates an empty file.
    Create { file: ExecFile },
    /// Removes a file.
    Remove { file: ExecFile },
}

/// What a [`FileStep`] holds.
pub enum FileStepView {
    Rename { from: ExecFileView, to: ExecFileView },
    Create { file: ExecFileView },
    Remove { file: ExecFileView },
}

impl View for FileStep {
    type V = FileStepView;

    open spec fn view(&self) -> FileStepView {
        match self {
            FileStep::Rename { from, to } => FileStepView::Rename { from: from@, to: to@ },
            FileStep::Create { file } => FileStepView::Create { file: file@ },
            FileStep::Remove { file } => FileStepView::Remove { file: file@ },
        }
    }
}

/// The extension under which the executable of this version is kept.
pub open spec fn saved_extension(version: Text) -> Text {
    "exe-v"@ + version
}

/// The running executable is renamed, and an empty file takes its place.
pub open spec fn saving(extension: Text) -> Seq<FileStepView> {
    seq![
        FileStepView::Rename {
            from: ExecFileView::Current,
            to: ExecFileView::Saved { extension: extension },
        },
        FileStepView::Create { file: ExecFileView::Current },
    ]
}

/// What took the place of the executable is removed, and the executable gets its name back.
pub open spec fn restoring(extension: Text) -> Seq<FileStepView> {
    seq![
        FileStepView::Remove { file: ExecFileView::Current },
        FileStepView::Rename {
            from: ExecFileView::Saved { extension: extension },
            to: ExecFileView::Current,
        },
    ]
}

/// The steps before this program is updated from `version`: none but on Windows.
pub open spec fn save_steps(windows: bool, version: Text) -> Seq<FileStepView> {
    if windows {
        saving(saved_extension(version))
    } else {
        Seq::empty()
    }
}

/// The steps after an update of this program from `version` failed: none but on Windows.
pub open spec fn restore_steps(windows: bool, version: Text) -> Seq<FileStepView> {
    if windows {
        restoring(saved_extension(version))
    } else {
        Seq::empty()
    }
}

/// The extension under which the executable of this version is kept.
fn extension_of(version: &str) -> (extension: String)
    ensures
        extension@ == saved_extension(version@),
{
    "exe-v".to_owned().concat(version)
}

/// The steps before this program is updated from `version`. That way the executable that was
/// running is replaced, and is not listed twice among the installed ones.
pub fn save_cargo_update_exec(windows: bool, version: &str) -> (steps: Vec<FileStep>)
    ensures
        views(steps@) == save_steps(windows, version@),
{
    if windows {
        save_cargo_update_exec_impl(extension_of(version))
    } else {
        let steps: Vec<FileStep> = Vec::new();
        assert(views(steps@) =~= Seq::empty());
        steps
    }
}

/// The steps that keep the running executable under `extension`.
pub fn save_cargo_update_exec_impl(extension: String) -> (steps: Vec<FileStep>)
    ensures
        views(steps@) == saving(extension@),
{
    let mut steps: Vec<FileStep> = Vec::new();
    let ghost kept = extension@;
    steps.push(FileStep::Rename { from: ExecFile::Current, to: ExecFile::Saved { extension } });
    steps.push(FileStep::Create { file: ExecFile::Current });
    assert(views(steps@) =~= saving(kept));
    steps
}

/// The steps after an update of this program from `version` failed.
pub fn restore_cargo_update_exec(windows: bool, version: &str) -> (steps: Vec<FileStep>)
    ensures
        views(steps@) == restore_steps(windows, version@),
{
    if windows {
        restore_cargo_update_exec_impl(extension_of(version))
    } else {
        let steps: Vec<FileStep> = Vec::new();
        assert(views(steps@) =~= Seq::empty());
        steps
    }
}

/// The steps that bring back the executable kept under `extension`.
pub fn restore_cargo_update_exec_impl(extension: String) -> (steps: Vec<FileStep>)
    ensures
        views(steps@) == restoring(extension@),
{
    let mut steps: Vec<FileStep> = Vec::new();
    let ghost kept = extension@;
    steps.push(FileStep::Remove { file: ExecFile::Current });
    steps.push(FileStep::Rename { from: ExecFile::Saved { extension }, to: ExecFile::Current });
    assert(views(steps@) =~= restoring(kept));
    steps
}

/// The name that a kept executable of this program begins with, up to its version.
pub open spec fn kept_name() -> Text {
    "cargo-install-update.exe-v"@
}

/// At position `at` of a file name stands the name of a kept executable, and a version, which
/// does not begin with a line feed.
pub open spec fn stale_at(name: Text, at: int) -> bool {
    let version = at + kept_name().len();
    &&& 0 <= at
    &&& version < name.len()
    &&& name.subrange(at, version) == kept_name()
    &&& name[version] != '\n'
}

/// The file is an executable kept by an earlier update.
pub open spec fn is_stale(name: Text) -> bool {
    exists|at: int| stale_at(name, at)
}

/// Searches by `regex::Regex::new` and `regex::Regex::is_match` for the one pattern that
/// `requires` admits, which is well formed: `\.` stands for a full stop, `.` for any character
/// but a line feed and `+` for one or more of it, and the match may begin anywhere.
#[verifier::external_body]
fn matches_pattern(pattern: &str, name: &str) -> (found: bool)
    requires
        pattern@ == "cargo-install-update\\.exe-v.+"@,
    ensures
        found == is_stale(name@),
{
    Regex::new(pattern).unwrap().is_match(name)
}

/// Whether the file is an executable kept by an earlier update, to be removed.
pub fn is_stale_executable(name: &str) -> (stale: bool)
    ensures
        stale == is_stale(name@),
{
    matches_pattern("cargo-install-update\\.exe-v.+", name)
}

/// What the files hold after a step; a new file holds `empty`.
pub open spec fn after_step<C>(
    files: Map<ExecFileView, C>,
    step: FileStepView,
    empty: C,
) -> Map<ExecFileView, C> {
    match step {
        FileStepView::Rename { from, to } => files.remove(from).insert(to, files[from]),
        FileStepView::Create { file } => files.insert(file, empty),
        FileStepView::Remove { file } => files.remove(file),
    }
}

/// What the files hold after some steps, one after the other.
pub open spec fn after_steps<C>(
    files: Map<ExecFileView, C>,
    steps: Seq<FileStepView>,
    empty: C,
) -> Map<ExecFileView, C>
    decreases steps.len(),
{
    if steps.len() == 0 {
        files
    } else {
        after_step(after_steps(files, steps.drop_last(), empty), steps.last(), empty)
    }
}

/// Whatever a failed update leaves in place of the executable, restoring after saving brings
/// the executable back and leaves no kept copy; no other file is touched.
pub proof fn lemma_restore_undoes_save<C>(
    files: Map<ExecFileView, C>,
    version: Text,
    empty: C,
    left: C,
)
    requires
        files.contains_key(ExecFileView::Current),
    ensures
        ({
            let kept = ExecFileView::Saved { extension: saved_extension(version) };
            let saved = after_steps(files, save_steps(true, version), empty);
            let updated = saved.insert(ExecFileView::Current, left);
            &&& saved.contains_key(kept) && saved[kept] == files[ExecFileView::Current]
            &&& after_steps(updated, restore_steps(true, version), empty) == files.remove(kept)
        }),
{
    reveal_with_fuel(after_steps, 3);
    let kept = ExecFileView::Saved { extension: saved_extension(version) };
    let steps = save_steps(true, version);
    assert(steps.drop_last().drop_last() =~= Seq::empty());
    assert(steps.drop_last().last() == steps[0]);
    let saved = after_steps(files, steps, empty);
    assert(saved =~= files.remove(ExecFileView::Current).insert(
        kept,
        files[ExecFileView::Current],
    ).insert(ExecFileView::Current, empty));
    let updated = saved.insert(ExecFileView::Current, left);
    let back = restore_steps(true, version);
    assert(back.drop_last().drop_last() =~= Seq::empty());
    assert(back.drop_last().last() == back[0]);
    assert(after_steps(updated, back, empty) =~= files.remove(kept));
}

/// A copy of this program that is kept for an update is found and removed at a later start,
/// provided that its version begins with something other than a line feed.
pub proof fn lemma_kept_copy_is_stale(version: Text)
    requires
        version.len() > 0,
        version[0] != '\n',
    ensures
        is_stale("cargo-install-update."@ + saved_extension(version)),
{
    reveal_strlit("cargo-install-update.");
    reveal_strlit("exe-v");
    reveal_strlit("cargo-install-update.exe-v");
    let name = "cargo-install-update."@ + saved_extension(version);
    assert(name =~= kept_name() + version) by {
        assert("cargo-install-update."@ + "exe-v"@ =~= kept_name());
    }
    assert(name.subrange(0, kept_name().len() as int) =~= kept_name());
    assert(stale_at(name, 0));
}

} // verus!
