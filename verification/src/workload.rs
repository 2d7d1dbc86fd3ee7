//! Workloads: what a model should be good at, as tasks with an evaluator each.
use vstd::prelude::*;

use crate::text::{owned, same};

verus! {

#[derive(Debug, Clone, PartialEq, Eq)]
pub struct Workload {
    pub id: String,
    pub label: String,
    pub description: String,
    pub tasks: Vec<WorkloadTask>,
}

/// A prompt, and how its output is judged.
#[derive(Debug, Clone, PartialEq, Eq)]
pub struct WorkloadTask {
    pub label: String,
    pub prompt: String,
    /// The id of the evaluator.
    pub evaluator: String,
    /// What the evaluator is configured with: a pattern, a schema, task names.
    pub evaluator_config: String,
}

/// The values of a task.
pub struct TaskView {
    pub label: Seq<char>,
    pub prompt: Seq<char>,
    pub evaluator: Seq<char>,
    pub evaluator_config: Seq<char>,
}

impl View for WorkloadTask {
    type V = TaskView;

    open spec fn view(&self) -> TaskView {
        TaskView {
            label: self.label@,
            prompt: self.prompt@,
            evaluator: self.evaluator@,
            evaluator_config: self.evaluator_config@,
        }
    }
}

/// The values of a workload.
pub struct WorkloadView {
    pub id: Seq<char>,
    pub label: Seq<char>,
    pub description: Seq<char>,
    pub tasks: Seq<TaskView>,
}

/// The values of a list of tasks.
pub open spec fn task_views(v: Seq<WorkloadTask>) -> Seq<TaskView> {
    Seq::new(v.len(), |i: int| v[i]@)
}

impl View for Workload {
    type V = WorkloadView;

    open spec fn view(&self) -> WorkloadView {
        WorkloadView {
            id: self.id@,
            label: self.label@,
            description: self.description@,
            tasks: task_views(self.tasks@),
        }
    }
}

/// The values of a list of workloads.
pub open spec fn workload_views(v: Seq<Workload>) -> Seq<WorkloadView> {
    Seq::new(v.len(), |i: int| v[i]@)
}

fn task(label: &str, prompt: &str, evaluator: &str, config: &str) -> (r: WorkloadTask)
    ensures
        r@ == (TaskView {
            label: label@,
            prompt: prompt@,
            evaluator: evaluator@,
            evaluator_config: config@,
        }),
{
    WorkloadTask {
        label: owned(label),
        prompt: owned(prompt),
        evaluator: owned(evaluator),
        evaluator_config: owned(config),
    }
}

/// The `coding` workload.
pub open spec fn coding_view() -> WorkloadView {
    WorkloadView {
        id: "coding"@,
        label: "Coding"@,
        description: "code generation, debugging, refactoring, test generation"@,
        tasks: seq![
            TaskView {
                label: "humaneval"@,
                prompt: "Write a Python function that returns the sum of two numbers."@,
                evaluator: "lm_eval:humaneval"@,
                evaluator_config: "humaneval"@,
            },
            TaskView {
                label: "mbpp"@,
                prompt: "Write a function to check if a number is prime."@,
                evaluator: "lm_eval:mbpp"@,
                evaluator_config: "mbpp"@,
            },
            TaskView {
                label: "debug"@,
                prompt: "Fix this bug: for i in range(len(arr)): print(arr[i+1])"@,
                evaluator: "regex"@,
                evaluator_config: "IndexError|bounds"@,
            },
        ],
    }
}

fn coding() -> (r: Workload)
    ensures
        r@ == coding_view(),
{
    let mut tasks: Vec<WorkloadTask> = Vec::new();
    tasks.push(
        task(
            "humaneval",
            "Write a Python function that returns the sum of two numbers.",
            "lm_eval:humaneval",
            "humaneval",
        ),
    );
    tasks.push(
        task(
            "mbpp",
            "Write a function to check if a number is prime.",
            "lm_eval:mbpp",
            "mbpp",
        ),
    );
    tasks.push(
        task(
            "debug",
            "Fix this bug: for i in range(len(arr)): print(arr[i+1])",
            "regex",
            "IndexError|bounds",
        ),
    );
    assert(task_views(tasks@) =~= coding_view().tasks);
    Workload {
        id: owned("coding"),
        label: owned("Coding"),
        description: owned("code generation, debugging, refactoring, test generation"),
        tasks,
    }
}

/// The `reasoning` workload.
pub open spec fn reasoning_view() -> WorkloadView {
    WorkloadView {
        id: "reasoning"@,
        label: "Reasoning"@,
        description: "mathematics, logic, multi-step reasoning"@,
        tasks: seq![
            TaskView {
                label: "gsm8k"@,
                prompt: "Jan has 3 apples. She buys 2 more. How many does she have?"@,
                evaluator: "lm_eval:gsm8k"@,
                evaluator_config: "gsm8k"@,
            },
            TaskView {
                label: "mmlu"@,
                prompt: "Which element has atomic number 1? A) Helium B) Hydrogen C) Lithium"@,
                evaluator: "lm_eval:mmlu"@,
                evaluator_config: "mmlu"@,
            },
        ],
    }
}

fn reasoning() -> (r: Workload)
    ensures
        r@ == reasoning_view(),
{
    let mut tasks: Vec<WorkloadTask> = Vec::new();
    tasks.push(
        task(
            "gsm8k",
            "Jan has 3 apples. She buys 2 more. How many does she have?",
            "lm_eval:gsm8k",
            "gsm8k",
        ),
    );
    tasks.push(
        task(
            "mmlu",
            "Which element has atomic number 1? A) Helium B) Hydrogen C) Lithium",
            "lm_eval:mmlu",
            "mmlu",
        ),
    );
    assert(task_views(tasks@) =~= reasoning_view().tasks);
    Workload {
        id: owned("reasoning"),
        label: owned("Reasoning"),
        description: owned("mathematics, logic, multi-step reasoning"),
        tasks,
    }
}

/// The `instruction` workload.
pub open spec fn instruction_view() -> WorkloadView {
    WorkloadView {
        id: "instruction"@,
        label: "Instruction Following"@,
        description: "structured JSON, exact formatting, constraint following"@,
        tasks: seq![
            TaskView {
                label: "ifeval"@,
                prompt: "Return JSON with keys name and age for a person named Alice aged 30."@,
                evaluator: "json_schema"@,
                evaluator_config: "{\"required\":[\"name\",\"age\"]}"@,
            },
        ],
    }
}

fn instruction() -> (r: Workload)
    ensures
        r@ == instruction_view(),
{
    let mut tasks: Vec<WorkloadTask> = Vec::new();
    tasks.push(
        task(
            "ifeval",
            "Return JSON with keys name and age for a person named Alice aged 30.",
            "json_schema",
            "{\"required\":[\"name\",\"age\"]}",
        ),
    );
    assert(task_views(tasks@) =~= instruction_view().tasks);
    Workload {
        id: owned("instruction"),
        label: owned("Instruction Following"),
        description: owned("structured JSON, exact formatting, constraint following"),
        tasks,
    }
}

/// The `assistant` workload.
pub open spec fn assistant_view() -> WorkloadView {
    WorkloadView {
        id: "assistant"@,
        label: "General Assistant"@,
        description: "Q&A, summarization, writing"@,
        tasks: seq![
            TaskView {
                label: "summarize"@,
                prompt: "Summarize: The quick brown fox jumps over the lazy dog."@,
                evaluator: "lexical-placeholder"@,
                evaluator_config: ""@,
            },
        ],
    }
}

fn assistant() -> (r: Workload)
    ensures
        r@ == assistant_view(),
{
    let mut tasks: Vec<WorkloadTask> = Vec::new();
    tasks.push(
        task(
            "summarize",
            "Summarize: The quick brown fox jumps over the lazy dog.",
            "lexical-placeholder",
            "",
        ),
    );
    assert(task_views(tasks@) =~= assistant_view().tasks);
    Workload {
        id: owned("assistant"),
        label: owned("General Assistant"),
        description: owned("Q&A, summarization, writing"),
        tasks,
    }
}

/// The `agent` workload.
pub open spec fn agent_view() -> WorkloadView {
    WorkloadView {
        id: "agent"@,
        label: "Agent"@,
        description: "tool use, filesystem tasks, repo modification"@,
        tasks: seq![
            TaskView {
                label: "tool_use"@,
                prompt: "List the files in the current directory and count them."@,
                evaluator: "regex"@,
                evaluator_config: "files?|count"@,
            },
        ],
    }
}

fn agent() -> (r: Workload)
    ensures
        r@ == agent_view(),
{
    let mut tasks: Vec<WorkloadTask> = Vec::new();
    tasks.push(
        task(
            "tool_use",
            "List the files in the current directory and count them.",
            "regex",
            "files?|count",
        ),
    );
    assert(task_views(tasks@) =~= agent_view().tasks);
    Workload {
        id: owned("agent"),
        label: owned("Agent"),
        description: owned("tool use, filesystem tasks, repo modification"),
        tasks,
    }
}

/// The workloads that a deck starts with.
pub fn seeded() -> (r: Vec<Workload>)
    ensures
        workload_views(r@) == seq![
            coding_view(),
            reasoning_view(),
            instruction_view(),
            assistant_view(),
            agent_view(),
        ],
{
    let mut r: Vec<Workload> = Vec::new();
    r.push(coding());
    r.push(reasoning());
    r.push(instruction());
    r.push(assistant());
    r.push(agent());
    assert(workload_views(r@) =~= seq![
        coding_view(),
        reasoning_view(),
        instruction_view(),
        assistant_view(),
        agent_view(),
    ]);
    r
}

/// The first task with a label from the `i`-th on.
pub open spec fn task_from(tasks: Seq<TaskView>, label: Seq<char>, i: int) -> Option<TaskView>
    decreases tasks.len() - i,
{
    if i < 0 || i >= tasks.len() {
        None
    } else if tasks[i].label == label {
        Some(tasks[i])
    } else {
        task_from(tasks, label, i + 1)
    }
}

/// The first task with a label in the workloads from the `i`-th on.
pub open spec fn labelled_from(ws: Seq<WorkloadView>, label: Seq<char>, i: int) -> Option<TaskView>
    decreases ws.len() - i,
{
    if i < 0 || i >= ws.len() {
        None
    } else {
        match task_from(ws[i].tasks, label, 0) {
            Some(t) => Some(t),
            None => labelled_from(ws, label, i + 1),
        }
    }
}

/// How the output of a task is judged: as the first task with its label says;
/// by the lexical placeholder where no workload has the task.
pub open spec fn judged_by(ws: Seq<WorkloadView>, label: Seq<char>) -> (Seq<char>, Seq<char>) {
    match labelled_from(ws, label, 0) {
        Some(t) => (t.evaluator, t.evaluator_config),
        None => ("lexical-placeholder"@, ""@),
    }
}

fn find_task<'a>(tasks: &'a Vec<WorkloadTask>, label: &str) -> (r: Option<&'a WorkloadTask>)
    ensures
        match task_from(task_views(tasks@), label@, 0) {
            Some(t) => r is Some && r->0@ == t,
            None => r is None,
        },
{
    let ghost all = task_views(tasks@);
    let mut i: usize = 0;
    while i < tasks.len()
        invariant
            all == task_views(tasks@),
            i <= tasks@.len(),
            task_from(all, label@, 0) == task_from(all, label@, i as int),
        decreases tasks@.len() - i,
    {
        assert(all[i as int] == tasks@[i as int]@);
        if same(tasks[i].label.as_str(), label) {
            return Some(&tasks[i]);
        }
        i = i + 1;
    }
    None
}

/// The evaluator of a task and its configuration.
pub fn task_evaluator(workloads: &Vec<Workload>, label: &str) -> (r: (String, String))
    ensures
        (r.0@, r.1@) == judged_by(workload_views(workloads@), label@),
{
    let ghost all = workload_views(workloads@);
    let mut i: usize = 0;
    while i < workloads.len()
        invariant
            all == workload_views(workloads@),
            i <= workloads@.len(),
            labelled_from(all, label@, 0) == labelled_from(all, label@, i as int),
        decreases workloads@.len() - i,
    {
        assert(all[i as int] == workloads@[i as int]@);
        match find_task(&workloads[i].tasks, label) {
            Some(t) => {
                return (owned(t.evaluator.as_str()), owned(t.evaluator_config.as_str()));
            },
            None => {},
        }
        i = i + 1;
    }
    (owned("lexical-placeholder"), owned(""))
}

} // verus!
