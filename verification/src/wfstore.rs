//! Workflow runs in the store.
use vstd::prelude::*;

use crate::text::{opt_str, same};
use crate::workflow::WorkflowRunStatus;

verus! {

/// A run of a workflow.
#[derive(Debug, Clone, PartialEq)]
pub struct WorkflowRunRow {
    pub id: String,
    pub workflow_id: String,
    pub status: WorkflowRunStatus,
    pub created_at: i64,
    pub updated_at: i64,
    pub budget_tokens: u64,
    pub tokens_used: u64,
    pub output: String,
}

/// A node's part of a run.
#[derive(Debug, Clone, PartialEq)]
pub struct NodeRunRow {
    pub id: String,
    pub run_id: String,
    pub node_id: String,
    pub role_id: String,
    pub kind: String,
    pub status: String,
    pub model_ref: String,
    pub output: String,
    pub error: String,
    pub started_at: Option<i64>,
    pub finished_at: Option<i64>,
    pub attempts: u32,
    pub order_idx: i64,
}

/// The word that a status is stored as.
pub open spec fn status_word(s: WorkflowRunStatus) -> Seq<char> {
    match s {
        WorkflowRunStatus::Queued => "queued"@,
        WorkflowRunStatus::Running => "running"@,
        WorkflowRunStatus::Done => "done"@,
        WorkflowRunStatus::Partial => "partial"@,
        WorkflowRunStatus::Stopped => "stopped"@,
        WorkflowRunStatus::Error => "error"@,
    }
}

/// The status that a stored word means. An unknown word means queued.
pub open spec fn word_status(w: Seq<char>) -> WorkflowRunStatus {
    if w == "running"@ || w == "running_done"@ {
        WorkflowRunStatus::Running
    } else if w == "done"@ {
        WorkflowRunStatus::Done
    } else if w == "partial"@ {
        WorkflowRunStatus::Partial
    } else if w == "stopped"@ {
        WorkflowRunStatus::Stopped
    } else if w == "error"@ {
        WorkflowRunStatus::Error
    } else {
        WorkflowRunStatus::Queued
    }
}

pub fn status_str(s: WorkflowRunStatus) -> (r: &'static str)
    ensures
        r@ == status_word(s),
{
    match s {
        WorkflowRunStatus::Queued => "queued",
        WorkflowRunStatus::Running => "running",
        WorkflowRunStatus::Done => "done",
        WorkflowRunStatus::Partial => "partial",
        WorkflowRunStatus::Stopped => "stopped",
        WorkflowRunStatus::Error => "error",
    }
}

pub fn status_from_str(s: &str) -> (r: WorkflowRunStatus)
    ensures
        r == word_status(s@),
{
    if same(s, "running") || same(s, "running_done") {
        WorkflowRunStatus::Running
    } else if same(s, "done") {
        WorkflowRunStatus::Done
    } else if same(s, "partial") {
        WorkflowRunStatus::Partial
    } else if same(s, "stopped") {
        WorkflowRunStatus::Stopped
    } else if same(s, "error") {
        WorkflowRunStatus::Error
    } else {
        WorkflowRunStatus::Queued
    }
}

/// A status that was stored is read back.
pub proof fn law_status_round_trip(s: WorkflowRunStatus)
    ensures
        word_status(status_word(s)) == s,
{
    reveal_strlit("queued");
    reveal_strlit("running");
    reveal_strlit("running_done");
    reveal_strlit("done");
    reveal_strlit("partial");
    reveal_strlit("stopped");
    reveal_strlit("error");
    assert("queued"@.len() == 6 && "running"@.len() == 7 && "running_done"@.len() == 12);
    assert("done"@.len() == 4 && "partial"@.len() == 7 && "stopped"@.len() == 7);
    assert("error"@.len() == 5);
    assert("running"@[0] == 'r' && "partial"@[0] == 'p' && "stopped"@[0] == 's');
}

/// The runs among the first `n` that are of a workflow, where one is asked for.
pub open spec fn runs_upto(rows: Seq<WorkflowRunRow>, wf: Option<Seq<char>>, n: int) -> Seq<int>
    decreases n,
{
    if n <= 0 {
        Seq::empty()
    } else if wf is None || rows[n - 1].workflow_id@ == wf->0 {
        runs_upto(rows, wf, n - 1).push(n - 1)
    } else {
        runs_upto(rows, wf, n - 1)
    }
}

/// The positions of the runs of a workflow; of all runs where none is asked
/// for.
pub fn list_workflow_runs(rows: &Vec<WorkflowRunRow>, workflow_id: Option<&str>) -> (r: Vec<usize>)
    ensures
        Seq::new(r@.len(), |i: int| r@[i] as int) == runs_upto(
            rows@,
            opt_str(workflow_id),
            rows@.len() as int,
        ),
{
    let ghost wf = opt_str(workflow_id);
    let mut r: Vec<usize> = Vec::new();
    let mut i: usize = 0;
    while i < rows.len()
        invariant
            wf == opt_str(workflow_id),
            i <= rows@.len(),
            r@.len() == runs_upto(rows@, wf, i as int).len(),
            forall|k: int| 0 <= k < r@.len() ==> #[trigger] r@[k] == runs_upto(rows@, wf, i as int)[k],
        decreases rows@.len() - i,
    {
        let takes = match workflow_id {
            Some(id) => same(rows[i].workflow_id.as_str(), id),
            None => true,
        };
        if takes {
            r.push(i);
        }
        i = i + 1;
    }
    assert(Seq::new(r@.len(), |i: int| r@[i] as int) =~= runs_upto(rows@, wf, rows@.len() as int));
    r
}

} // verus!
