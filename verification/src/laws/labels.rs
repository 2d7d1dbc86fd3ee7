//! Names, labels and what is said to people.
use vstd::prelude::*;

use crate::engines::discover::{plan_trials, points_upto, trial_measured, TrialPlan, TrialResult};
use crate::engines::inference::GenSample;
use crate::engines::matrix::{failed_cell_rows, MatrixCell};
use crate::engines::rewire::{rewire_clients, rewire_written, RewireReport, RewireTarget};
use crate::engines::runner::{AgenticRunner, StatelessRunner};
use crate::engines::swap::{Swap, SwapPhase, SwapReport};
use crate::engines::workflow::NodeOutcome;
use crate::json::JsonView;
use crate::model::ModelMeta;
use crate::paths::file_name;
use crate::runtime::{path_in, RuntimeManifest};
use crate::safetensors::{is_showable, SafetensorsModel};
use crate::store::bench::MatrixRow;
use crate::store::index::{default_db_path, generated_dir, models_dir, systemd_dir};
use crate::store::sessions::{
    assignment, assignments, session_changes, update_session, wide_code, Change, SessionStatus,
    SqlView, Statement,
};
use crate::store::settings::{settings_undo, AuditEntry, SettingChange};
use crate::text::{decimal, decimal_int, join, split, texts, trim};
use crate::wfstore::{status_from_str, status_str};
use crate::workflow::{Message, WorkflowNode, WorkflowRunStatus};
use crate::workload::{seeded, workload_views, Workload};

verus! {

/// A trial is named after its runtime and its context, and labelled so for
/// people.
pub proof fn law_names_of_trials(
    meta: &ModelMeta,
    ms: &Vec<RuntimeManifest>,
    ids: Option<&Vec<String>>,
    variants: u32,
    cap: Option<u32>,
    vram_mb: u64,
    r: Result<(Vec<TrialPlan>, Vec<(String, String)>), String>,
    i: int,
)
    requires
        call_ensures(plan_trials, (meta, ms, ids, variants, cap, vram_mb), r),
        r is Ok,
        0 <= i < (r->Ok_0).0@.len(),
    ensures
        ({
            let t = (r->Ok_0).0@[i];
            &&& t.profile.name@ == "discover-"@ + t.runtime_id@ + "-"@ + decimal(
                t.profile.ctx_size as nat,
            )
            &&& t.label@ == t.display@ + " @ ctx "@ + decimal(t.profile.ctx_size as nat)
            &&& t.profile.model@ == meta.path@
        }),
{
    let (at, skips) = crate::engines::discover::selection(
        ms@,
        *meta,
        crate::engines::discover::opt_texts(ids),
    );
    let pts = points_upto(at, ms@, *meta, vram_mb, variants, cap, at.len() as int);
    assert(crate::engines::discover::is_plan((r->Ok_0).0@[i], pts[i], *meta));
}

/// A trial that was measured says where it served, and what the engine's own
/// gauge read.
pub proof fn law_summary_of_a_trial(
    plan: &TrialPlan,
    ss: &Vec<GenSample>,
    ats: &Vec<i64>,
    native: &Option<String>,
    version: &Option<String>,
    r: TrialResult,
)
    requires
        call_ensures(trial_measured, (plan, ss, ats, native, version), r),
    ensures
        native is Some ==> r.boot_summary@ == "serving on :"@ + decimal(plan.test_port as nat) + (
        " (metrics native "@ + (native->0)@ + ")"@),
        native is None ==> r.boot_summary@ =~= "serving on :"@ + decimal(plan.test_port as nat),
        r.display@ == plan.display@,
{
}

/// A cell that could not be booted has one record for each task, all with the
/// reason.
pub proof fn law_cell_that_failed(
    cell: &MatrixCell,
    ctx: u32,
    tasks: &Vec<(String, String)>,
    verdict: &str,
    summary: &str,
    at: i64,
    r: Vec<MatrixRow>,
    i: int,
)
    requires
        call_ensures(failed_cell_rows, (cell, ctx, tasks, verdict, summary, at), r),
        0 <= i < tasks@.len(),
    ensures
        r@.len() == tasks@.len(),
        r@[i].task@ == tasks@[i].0@,
        r@[i].verdict@ == verdict@,
        r@[i].summary@ == summary@,
        r@[i].model@ == cell.display@,
        r@[i].ctx == ctx,
        r@[i].run == 0,
        r@[i].at == at,
        r@[i].tok_s is None,
        r@[i].tok_s_kind@ == "native"@,
{
    let v = r@[i]@;
    assert(v.task == r@[i].task@ && v.tok_s_kind == r@[i].tok_s_kind@);
}

/// A swap that did not happen says why, and what is running.
pub proof fn law_swap_says_why(s: &Swap, r: SwapReport)
    requires
        call_ensures(Swap::report, (s,), r),
    ensures
        s.phase == SwapPhase::Rejected ==> r.summary@ == "candidate rejected on the test port: "@
            + s.reason@ + " — live instance untouched"@ && !r.swapped && !r.rolled_back,
        s.phase == SwapPhase::RolledBack ==> r.summary@ == "candidate "@ + s.to_runtime@
            + " failed live health ("@ + s.reason@ + "); restored "@ + s.from_runtime@
            && r.rolled_back && !r.swapped,
        s.phase == SwapPhase::Swapped ==> r.summary@ == "swapped "@ + s.from_runtime@ + " → "@
            + s.to_runtime@ + " at ctx "@ + decimal(s.ctx as nat) && r.swapped && !r.rolled_back,
        r.ctx == s.ctx,
        r.tps == s.tps,
        r.verified == s.verified,
{
}

/// A directory's model goes by the name that its document gives, else by that
/// of the directory, where they have a letter; else by its type.
pub proof fn law_name_of_a_directory(model: &SafetensorsModel, r: String, n: JsonView, t: JsonView)
    requires
        call_ensures(SafetensorsModel::pretty_name, (model,), r),
    ensures
        model.config@.get("_name_or_path"@) == Some(n) && n is Str && is_showable(
            trim(split(n->Str_0, '/').last()),
        ) ==> r@ == trim(split(n->Str_0, '/').last()),
        model.config@.get("_name_or_path"@) is None && file_name(model.dir@) is Some && is_showable(
            trim(file_name(model.dir@)->0),
        ) ==> r@ == trim(file_name(model.dir@)->0),
        model.config@.get("_name_or_path"@) is None && file_name(model.dir@) is None
            && model.config@.get("model_type"@) == Some(t) && t is Str ==> r@ == t->Str_0,
{
}

/// The letters that make a name fit to be shown are those of the alphabet.
pub proof fn law_names_have_letters(s: Seq<char>, i: int)
    ensures
        0 <= i < s.len() && (97 <= s[i] as u32 <= 122 || 65 <= s[i] as u32 <= 90) ==> is_showable(s),
        (forall|k: int|
            0 <= k < s.len() ==> !(97 <= (#[trigger] s[k]) as u32 <= 122) && !(65 <= s[k] as u32
                <= 90)) ==> !is_showable(s),
{
    assert('a' as u32 == 97 && 'z' as u32 == 122 && 'A' as u32 == 65 && 'Z' as u32 == 90);
    if 0 <= i < s.len() && (97 <= s[i] as u32 <= 122 || 65 <= s[i] as u32 <= 90) {
        assert(crate::safetensors::is_letter(s[i]));
    }
    if is_showable(s) {
        let k = choose|k: int| 0 <= k < s.len() && crate::safetensors::is_letter(#[trigger] s[k]);
        assert(crate::safetensors::is_letter(s[k]));
    }
}

/// A statement that sets one column sets it to its value, or to nothing, of
/// the session with the id.
pub proof fn law_statement_of_one_column(
    id: &str,
    status: Option<SessionStatus>,
    completed: Option<Option<i64>>,
    r: Option<Statement>,
)
    requires
        call_ensures(
            update_session,
            (
                id,
                status,
                None::<Option<i64>>,
                completed,
                None::<Option<i32>>,
                None::<Option<String>>,
                None::<Option<String>>,
            ),
            r,
        ),
    ensures
        status is Some && completed is None ==> (r->0).sql@ == "UPDATE sessions SET "@ + (
        "status"@ + " = ?"@ + decimal(2)) + " WHERE id = ?1"@,
        status is None && (completed matches Some(Some(n))) ==> (r->0).sql@
            == "UPDATE sessions SET "@ + ("completed_at"@ + " = ?"@ + decimal(2))
            + " WHERE id = ?1"@,
        status is None && (completed matches Some(None)) ==> (r->0).sql@
            == "UPDATE sessions SET "@ + ("completed_at"@ + " = NULL"@) + " WHERE id = ?1"@,
{
    let none: Option<Option<i64>> = None;
    let text: Option<Option<String>> = None;
    let changes = session_changes(status, none, completed, wide_code(None), text, text);
    if status is Some && completed is None {
        assert(changes =~= seq![
            Change {
                column: "status"@,
                value: Some(SqlView::Text(crate::store::sessions::status_text(status->0))),
            },
        ]);
        assert(changes.len() == 1);
        assert(assignments(changes).len() == 1);
        assert(assignments(changes)[0] == assignment(changes, 0));
    }
    if status is None && completed is Some {
        assert(changes.len() == 1);
        assert(changes[0].column == "completed_at"@);
        assert(assignments(changes).len() == 1);
        assert(assignments(changes)[0] == assignment(changes, 0));
    }
}

/// What is taken back is said by its number.
pub proof fn law_undo_says_what(
    id: i64,
    a: &AuditEntry,
    current: Option<&str>,
    now: i64,
    r: Result<SettingChange, String>,
)
    requires
        call_ensures(settings_undo, (id, a, current, now), r),
        r is Ok,
    ensures
        a.old_json is Some ==> (r->Ok_0).audit.reason@ == "revert #"@ + decimal_int(id as int),
        a.old_json is None ==> (r->Ok_0).audit.reason@ == "undo #"@ + decimal_int(id as int),
        (r->Ok_0).updated_at == now,
{
}

/// The states of a run and their words.
pub proof fn law_words_for_runs(
    s: WorkflowRunStatus,
    w: &'static str,
    t: &str,
    r: WorkflowRunStatus,
)
    requires
        call_ensures(status_str, (s,), w),
        call_ensures(status_from_str, (t,), r),
    ensures
        s == WorkflowRunStatus::Queued ==> w@ == "queued"@,
        s == WorkflowRunStatus::Running ==> w@ == "running"@,
        s == WorkflowRunStatus::Done ==> w@ == "done"@,
        s == WorkflowRunStatus::Partial ==> w@ == "partial"@,
        s == WorkflowRunStatus::Stopped ==> w@ == "stopped"@,
        s == WorkflowRunStatus::Error ==> w@ == "error"@,
        t@ == w@ ==> r == s,
        t@ == "running_done"@ ==> r == WorkflowRunStatus::Running,
{
    crate::wfstore::law_status_round_trip(s);
}

proof fn lemma_tasks(w: Workload)
    ensures
        w@.tasks.len() == w.tasks@.len(),
        forall|k: int| 0 <= k < w.tasks@.len() ==> #[trigger] w@.tasks[k] == w.tasks@[k]@,
        w@.id == w.id@,
{
}

/// The workloads that are there from the start, with their tasks and how each
/// is judged.
pub proof fn law_workloads_from_the_start(r: Vec<Workload>)
    requires
        call_ensures(seeded, (), r),
    ensures
        r@.len() == 5,
        r@[0].id@ == "coding"@ && r@[0].tasks@.len() == 3,
        r@[1].id@ == "reasoning"@ && r@[1].tasks@.len() == 2,
        r@[2].id@ == "instruction"@ && r@[2].tasks@.len() == 1,
        r@[3].id@ == "assistant"@ && r@[3].tasks@.len() == 1,
        r@[4].id@ == "agent"@ && r@[4].tasks@.len() == 1,
        r@[0].tasks@[0].evaluator@ == "lm_eval:humaneval"@,
        r@[0].tasks@[1].evaluator@ == "lm_eval:mbpp"@,
        r@[0].tasks@[2].evaluator@ == "regex"@ && r@[0].tasks@[2].evaluator_config@
            == "IndexError|bounds"@,
        r@[1].tasks@[0].evaluator@ == "lm_eval:gsm8k"@,
        r@[1].tasks@[1].evaluator@ == "lm_eval:mmlu"@,
        r@[2].tasks@[0].evaluator@ == "json_schema"@ && r@[2].tasks@[0].evaluator_config@
            == "{\"required\":[\"name\",\"age\"]}"@,
        r@[3].tasks@[0].evaluator@ == "lexical-placeholder"@,
        r@[4].tasks@[0].evaluator@ == "regex"@ && r@[4].tasks@[0].evaluator_config@
            == "files?|count"@,
{
    let v = workload_views(r@);
    assert(v.len() == 5);
    assert(v[0] == r@[0]@ && v[1] == r@[1]@ && v[2] == r@[2]@ && v[3] == r@[3]@ && v[4] == r@[4]@);
    lemma_tasks(r@[0]);
    assert(v[0] == crate::workload::coding_view());
    assert(v[0].tasks.len() == 3);
    assert(v[0].tasks[0] == r@[0].tasks@[0]@);
    assert(v[0].tasks[1] == r@[0].tasks@[1]@);
    assert(v[0].tasks[2] == r@[0].tasks@[2]@);
    lemma_tasks(r@[1]);
    assert(v[1] == crate::workload::reasoning_view());
    assert(v[1].tasks.len() == 2);
    assert(v[1].tasks[0] == r@[1].tasks@[0]@);
    assert(v[1].tasks[1] == r@[1].tasks@[1]@);
    lemma_tasks(r@[2]);
    assert(v[2] == crate::workload::instruction_view());
    assert(v[2].tasks.len() == 1);
    assert(v[2].tasks[0] == r@[2].tasks@[0]@);
    lemma_tasks(r@[3]);
    assert(v[3] == crate::workload::assistant_view());
    assert(v[3].tasks.len() == 1);
    assert(v[3].tasks[0] == r@[3].tasks@[0]@);
    lemma_tasks(r@[4]);
    assert(v[4] == crate::workload::agent_view());
    assert(v[4].tasks.len() == 1);
    assert(v[4].tasks[0] == r@[4].tasks@[0]@);
}

/// The clients that are pointed at the deck.
pub proof fn law_clients(home: &str, r: Vec<RewireTarget>)
    requires
        call_ensures(rewire_clients, (home,), r),
    ensures
        r@.len() == 2,
        r@[0].client@ == "dsh"@,
        r@[0].path@ == path_in(home@, ".dsh/settings.yaml"@),
        r@[0].anchor@ == "llamacpp:"@,
        r@[1].client@ == "opencode"@,
        r@[1].path@ == path_in(home@, ".config/opencode/opencode.json"@),
        r@[1].anchor@ == "\"llamacpp\":"@,
{
}

/// What a generation gives a node: its text, its speed and its tokens, or the
/// reason for which it failed.
pub proof fn law_outcome_of_a_generation(s: GenSample, r: Result<NodeOutcome, String>)
    requires
        call_ensures(StatelessRunner::outcome, (s,), r),
    ensures
        r is Ok <==> s.ok,
        s.ok ==> (r->Ok_0).text@ == s.text@ && (r->Ok_0).tps == s.tok_s && (r->Ok_0).ttft_ms
            == s.ttft_ms,
        s.ok && s.gen_tokens is Some ==> (r->Ok_0).gen_tokens == s.gen_tokens->0,
        s.ok && s.gen_tokens is None ==> (r->Ok_0).gen_tokens == 0,
        !s.ok && s.error is Some ==> (r->Err_0)@ == (s.error->0)@,
{
}

/// What is told of a client's file that was written, or could not be.
pub proof fn law_written_clients(
    client: &str,
    path: &str,
    port: u16,
    error: &Option<String>,
    r: RewireReport,
)
    requires
        call_ensures(rewire_written, (client, path, port, error), r),
    ensures
        r.client@ == client@,
        r.path@ == path@,
        error is None ==> r.status@ == "rewired → :"@ + decimal(port as nat),
        error is Some ==> r.status@ == "write error: "@ + (error->0)@,
{
}

/// An agent is started in its directory, with its model where it has one, and
/// with the prompt.
pub proof fn law_arguments_of_an_agent(
    a: &AgenticRunner,
    node: &WorkflowNode,
    inputs: &[Message],
    r: Vec<String>,
    prompt: String,
)
    requires
        call_ensures(AgenticRunner::args, (a, node, inputs), r),
        call_ensures(crate::engines::runner::build_prompt, (node, inputs), prompt),
    ensures
        texts(r@)[0] == "run"@ && texts(r@)[1] == "--dir"@ && texts(r@)[2] == a.dir@,
        texts(r@).last() == prompt@,
        a.model is Some && (a.model->0)@.len() > 0 ==> texts(r@).len() == 6 && texts(r@)[3]
            == "-m"@ && texts(r@)[4] == (a.model->0)@,
        a.model is None || (a.model->0)@.len() == 0 ==> texts(r@).len() == 4,
{
}

/// Where the deck keeps its files: under the base directory where one is set,
/// else under the home directory.
pub proof fn law_places(
    data: Option<&str>,
    config: Option<&str>,
    home: Option<&str>,
    db: String,
    units: String,
    generated: String,
    models: String,
)
    requires
        call_ensures(default_db_path, (data, home), db),
        call_ensures(systemd_dir, (config, home), units),
        call_ensures(generated_dir, (data, home), generated),
        call_ensures(models_dir, (home,), models),
    ensures
        data is Some ==> db@ == path_in((data->0)@, "cyberdeck/cyberdeck.db"@) && generated@
            == path_in((data->0)@, "cyberdeck/generated"@),
        data is None && home is Some ==> db@ == path_in(
            path_in((home->0)@, ".local/share"@),
            "cyberdeck/cyberdeck.db"@,
        ) && generated@ == path_in(path_in((home->0)@, ".local/share"@), "cyberdeck/generated"@),
        config is Some ==> units@ == path_in((config->0)@, "systemd/user"@),
        config is None && home is Some ==> units@ == path_in(
            path_in((home->0)@, ".config"@),
            "systemd/user"@,
        ),
        home is Some ==> models@ == path_in((home->0)@, "models"@),
{
}

/// The other columns have their names too.
pub proof fn law_statements_of_the_other_columns(
    id: &str,
    started: i64,
    code: i32,
    handoff: String,
    error: String,
    a: Option<Statement>,
    b: Option<Statement>,
    c: Option<Statement>,
    d: Option<Statement>,
)
    requires
        call_ensures(
            update_session,
            (id, None, Some(Some(started)), None, None, None, None),
            a,
        ),
        call_ensures(update_session, (id, None, None, None, Some(Some(code)), None, None), b),
        call_ensures(update_session, (id, None, None, None, None, Some(Some(handoff)), None), c),
        call_ensures(update_session, (id, None, None, None, None, None, Some(Some(error))), d),
    ensures
        (a->0).sql@ == "UPDATE sessions SET "@ + ("started_at"@ + " = ?"@ + decimal(2))
            + " WHERE id = ?1"@,
        (b->0).sql@ == "UPDATE sessions SET "@ + ("exit_code"@ + " = ?"@ + decimal(2))
            + " WHERE id = ?1"@,
        (c->0).sql@ == "UPDATE sessions SET "@ + ("handoff_json"@ + " = ?"@ + decimal(2))
            + " WHERE id = ?1"@,
        (d->0).sql@ == "UPDATE sessions SET "@ + ("error_message"@ + " = ?"@ + decimal(2))
            + " WHERE id = ?1"@,
{
    let no: Option<Option<i64>> = None;
    let text: Option<Option<String>> = None;
    lemma_one_change(
        session_changes(None, Some(Some(started)), no, wide_code(None), text, text),
        "started_at"@,
    );
    lemma_one_change(
        session_changes(None, no, no, wide_code(Some(Some(code))), text, text),
        "exit_code"@,
    );
    lemma_one_change(
        session_changes(None, no, no, wide_code(None), Some(Some(handoff)), text),
        "handoff_json"@,
    );
    lemma_one_change(
        session_changes(None, no, no, wide_code(None), text, Some(Some(error))),
        "error_message"@,
    );
}

proof fn lemma_one_change(changes: Seq<Change>, column: Seq<char>)
    requires
        changes.len() == 1,
        changes[0].column == column,
        changes[0].value is Some,
    ensures
        join(assignments(changes), ", "@) == column + " = ?"@ + decimal(2),
{
    assert(assignments(changes).len() == 1);
    assert(assignments(changes)[0] == assignment(changes, 0));
}

} // verus!
