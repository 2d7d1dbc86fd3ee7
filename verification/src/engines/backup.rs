//! Writes over files, each after a backup of what is there.
use vstd::prelude::*;

use crate::engines::systemd::{backup_file, file_backup};
use crate::text::owned;

verus! {

/// One step of writing files.
#[derive(Debug, Clone, PartialEq)]
pub enum FileStep {
    /// Copy the file at a path to its backup.
    BackUp { path: String, to: String },
    Write { path: String, content: String },
}

/// What a step does.
pub enum FileStepView {
    BackUp(Seq<char>, Seq<char>),
    Write(Seq<char>, Seq<char>),
}

impl View for FileStep {
    type V = FileStepView;

    open spec fn view(&self) -> FileStepView {
        match self {
            FileStep::BackUp { path, to } => FileStepView::BackUp(path@, to@),
            FileStep::Write { path, content } => FileStepView::Write(path@, content@),
        }
    }
}

/// What a list of steps does.
pub open spec fn file_steps(v: Seq<FileStep>) -> Seq<FileStepView> {
    Seq::new(v.len(), |i: int| v[i]@)
}

/// The steps that write a file: where one is there, it is backed up first.
pub open spec fn write_steps(
    path: Seq<char>,
    content: Seq<char>,
    there: bool,
    ts: Seq<char>,
) -> Seq<FileStepView> {
    if there {
        seq![
            FileStepView::BackUp(path, file_backup(path, ts)),
            FileStepView::Write(path, content),
        ]
    } else {
        seq![FileStepView::Write(path, content)]
    }
}

/// Adds the steps that write a file. A backup carries the time `ts` in its name.
pub fn add_write(steps: &mut Vec<FileStep>, path: String, content: String, there: bool, ts: &str)
    ensures
        file_steps(final(steps)@) == file_steps(old(steps)@) + write_steps(
            path@,
            content@,
            there,
            ts@,
        ),
{
    let ghost before = file_steps(steps@);
    if there {
        let to = backup_file(path.as_str(), ts);
        steps.push(FileStep::BackUp { path: owned(path.as_str()), to });
    }
    steps.push(FileStep::Write { path, content });
    assert(file_steps(steps@) =~= before + write_steps(path@, content@, there, ts@));
}

/// Step `k` writes a file that is there only after step `j` backed it up, and
/// nothing wrote it before.
pub open spec fn backed_up_at(steps: Seq<FileStepView>, k: int, j: int, ts: Seq<char>) -> bool {
    &&& steps[k] is Write
    &&& 0 <= j < k
    &&& steps[j] == FileStepView::BackUp(steps[k]->Write_0, file_backup(steps[k]->Write_0, ts))
    &&& forall|i: int|
        0 <= i < j && (#[trigger] steps[i]) is Write ==> steps[i]->Write_0 != steps[k]->Write_0
}

} // verus!
