//! The bench matrix: a headless model × quant × engine grid.
//!
//! A cell is a model that an engine can serve. Each cell boots its engine on
//! the engine's test port, runs every task the requested number of times, and
//! records each trial.
use vstd::prelude::*;
use vstd::string::StringExecFns;

use crate::engines::discover::{error_text, sample_verdict, text_or_empty};
use crate::engines::inference::GenSample;
use crate::profile::{engine_id, engine_source, has_default_flags, Engine, ModelSource, Profile};
use crate::store::bench::{row_views, MatrixRow, RowView};
use crate::text::{opt_text, owned};

verus! {

/// One cell of the grid.
#[derive(Debug, Clone, PartialEq)]
pub struct MatrixCell {
    pub engine: Engine,
    /// A local path, or an id of Ollama's store.
    pub model_id: String,
    pub display: String,
}

/// The binary of an engine, where one is listed; the first counts.
pub open spec fn bin_of(bins: Seq<(Engine, String)>, e: Engine) -> Option<Seq<char>>
    decreases bins.len(),
{
    if bins.len() == 0 {
        None
    } else if bins[0].0 == e {
        Some(bins[0].1@)
    } else {
        bin_of(bins.drop_first(), e)
    }
}

/// The binary of an engine.
pub fn find_engine_bin<'a>(bins: &'a Vec<(Engine, String)>, e: Engine) -> (r: Option<&'a String>)
    ensures
        match r {
            Some(b) => bin_of(bins@, e) == Some(b@),
            None => bin_of(bins@, e) is None,
        },
{
    let mut i: usize = 0;
    assert(bins@.skip(0) =~= bins@);
    while i < bins.len()
        invariant
            i <= bins@.len(),
            bin_of(bins@, e) == bin_of(bins@.skip(i as int), e),
        decreases bins@.len() - i,
    {
        assert(bins@.skip(i as int)[0] == bins@[i as int]);
        assert(bins@.skip(i as int).drop_first() =~= bins@.skip(i + 1));
        if bins[i].0 == e {
            return Some(&bins[i].1);
        }
        i = i + 1;
    }
    None
}

/// The profile that boots a cell of Ollama: the daemon takes its model with
/// each request.
pub open spec fn is_daemon_profile(p: Profile, cell: MatrixCell, bin: Option<Seq<char>>) -> bool {
    &&& p.name@.len() == 0
    &&& p.engine == Engine::Ollama
    &&& p.bin@ == match bin {
        Some(b) => b,
        None => "ollama"@,
    }
    &&& p.host@ == "127.0.0.1"@
    &&& p.model@ == cell.model_id@
    &&& p.alias@ == cell.model_id@
    &&& exists|base: Profile|
        #[trigger] has_default_flags(base) && p == (Profile {
            name: p.name,
            engine: p.engine,
            bin: p.bin,
            host: p.host,
            model: p.model,
            alias: p.alias,
            ..base
        })
}

/// Plans the launch of a cell. `derived` is the loadout that was derived for
/// it, which counts for engines that load local files; a listed binary wins.
pub fn plan_profile(
    cell: &MatrixCell,
    bins: &Vec<(Engine, String)>,
    derived: Result<Profile, String>,
) -> (r: Result<Profile, String>)
    ensures
        match engine_source(cell.engine) {
            ModelSource::OllamaStore => r is Ok && is_daemon_profile(
                r->Ok_0,
                *cell,
                bin_of(bins@, Engine::Ollama),
            ),
            ModelSource::LocalPath => match derived {
                Ok(d) => r is Ok && r->Ok_0 == (Profile { bin: r->Ok_0.bin, ..d })
                    && r->Ok_0.bin@ == match bin_of(bins@, cell.engine) {
                    Some(b) => b,
                    None => d.bin@,
                },
                Err(e) => r is Err && r->Err_0@ == "derive failed for "@ + cell.display@ + ": "@
                    + e@,
            },
        },
{
    match cell.engine.model_source() {
        ModelSource::LocalPath => match derived {
            Ok(d) => {
                let mut p = d;
                match find_engine_bin(bins, cell.engine) {
                    Some(b) => {
                        p.bin = owned(b.as_str());
                    },
                    None => {},
                }
                Ok(p)
            },
            Err(e) => {
                let mut m = owned("derive failed for ");
                m.append(cell.display.as_str());
                m.append(": ");
                m.append(e.as_str());
                Err(m)
            },
        },
        ModelSource::OllamaStore => {
            let mut p = Profile::default();
            assert(has_default_flags(p));
            p.engine = Engine::Ollama;
            p.bin = match find_engine_bin(bins, Engine::Ollama) {
                Some(b) => owned(b.as_str()),
                None => owned("ollama"),
            };
            p.host = owned("127.0.0.1");
            p.model = owned(cell.model_id.as_str());
            p.alias = owned(cell.model_id.as_str());
            Ok(p)
        },
    }
}

/// The record of a trial that gave no sample.
pub open spec fn failed_row(
    cell: MatrixCell,
    ctx: u32,
    task: Seq<char>,
    run: u32,
    verdict: Seq<char>,
    summary: Seq<char>,
    at: i64,
) -> RowView {
    RowView {
        engine: engine_id(cell.engine),
        model: cell.display@,
        ctx,
        task,
        run,
        verdict,
        summary,
        gen_tokens: None,
        prompt_tokens: None,
        tok_s: None,
        tok_s_kind: "native"@,
        wall_ms: 0,
        output: Seq::empty(),
        at,
        workload_id: None,
        hardware_profile_id: None,
        engine_version: None,
        prompt_tps: None,
        ttft_ms: None,
        peak_vram_mb: None,
        model_rev: None,
        sampling_json: None,
        role_id: None,
        workflow_id: None,
    }
}

/// The record of a sample.
pub open spec fn sampled_row(
    cell: MatrixCell,
    ctx: u32,
    task: Seq<char>,
    run: u32,
    s: GenSample,
    at: i64,
) -> RowView {
    RowView {
        engine: engine_id(cell.engine),
        model: cell.display@,
        ctx,
        task,
        run,
        verdict: sample_verdict(s),
        summary: text_or_empty(opt_text(s.error)),
        gen_tokens: s.gen_tokens,
        prompt_tokens: s.prompt_tokens,
        tok_s: s.tok_s,
        tok_s_kind: s.tok_s_kind@,
        wall_ms: s.wall_ms,
        output: s.text@,
        at,
        workload_id: None,
        hardware_profile_id: None,
        engine_version: None,
        prompt_tps: s.prompt_tps,
        ttft_ms: s.ttft_ms,
        peak_vram_mb: None,
        model_rev: None,
        sampling_json: None,
        role_id: None,
        workflow_id: None,
    }
}

/// The record of a trial that gave no sample.
pub fn fail_row(
    cell: &MatrixCell,
    ctx: u32,
    task: &str,
    run: u32,
    verdict: &str,
    summary: &str,
    at: i64,
) -> (r: MatrixRow)
    ensures
        r@ == failed_row(*cell, ctx, task@, run, verdict@, summary@, at),
{
    MatrixRow {
        engine: owned(cell.engine.store_id()),
        model: owned(cell.display.as_str()),
        ctx,
        task: owned(task),
        run,
        verdict: owned(verdict),
        summary: owned(summary),
        gen_tokens: None,
        prompt_tokens: None,
        tok_s: None,
        tok_s_kind: owned("native"),
        wall_ms: 0,
        output: String::new(),
        at,
        workload_id: None,
        hardware_profile_id: None,
        engine_version: None,
        prompt_tps: None,
        ttft_ms: None,
        peak_vram_mb: None,
        model_rev: None,
        sampling_json: None,
        role_id: None,
        workflow_id: None,
    }
}

fn sample_row(cell: &MatrixCell, ctx: u32, task: &str, run: u32, s: &GenSample, at: i64) -> (r:
    MatrixRow)
    ensures
        r@ == sampled_row(*cell, ctx, task@, run, *s, at),
{
    MatrixRow {
        engine: owned(cell.engine.store_id()),
        model: owned(cell.display.as_str()),
        ctx,
        task: owned(task),
        run,
        verdict: if s.ok {
            owned("RUNNING")
        } else {
            owned("ERROR")
        },
        summary: error_text(&s.error),
        gen_tokens: s.gen_tokens,
        prompt_tokens: s.prompt_tokens,
        tok_s: s.tok_s,
        tok_s_kind: owned(s.tok_s_kind.as_str()),
        wall_ms: s.wall_ms,
        output: owned(s.text.as_str()),
        at,
        workload_id: None,
        hardware_profile_id: None,
        engine_version: None,
        prompt_tps: s.prompt_tps,
        ttft_ms: s.ttft_ms,
        peak_vram_mb: None,
        model_rev: None,
        sampling_json: None,
        role_id: None,
        workflow_id: None,
    }
}

/// The records of a cell that could not be planned or booted: one for each
/// task, with the reason. `tasks` are pairs of a label and a prompt.
pub fn failed_cell_rows(
    cell: &MatrixCell,
    ctx: u32,
    tasks: &Vec<(String, String)>,
    verdict: &str,
    summary: &str,
    at: i64,
) -> (r: Vec<MatrixRow>)
    ensures
        r@.len() == tasks@.len(),
        forall|i: int|
            0 <= i < r@.len() ==> (#[trigger] r@[i])@ == failed_row(
                *cell,
                ctx,
                tasks@[i].0@,
                0,
                verdict@,
                summary@,
                at,
            ),
{
    let mut r: Vec<MatrixRow> = Vec::new();
    let mut i: usize = 0;
    while i < tasks.len()
        invariant
            i <= tasks@.len(),
            r@.len() == i,
            forall|j: int|
                0 <= j < i ==> (#[trigger] r@[j])@ == failed_row(
                    *cell,
                    ctx,
                    tasks@[j].0@,
                    0,
                    verdict@,
                    summary@,
                    at,
                ),
        decreases tasks@.len() - i,
    {
        r.push(fail_row(cell, ctx, tasks[i].0.as_str(), 0, verdict, summary, at));
        i = i + 1;
    }
    r
}

/// The records of the first `n` tasks of a cell: of each task one for each
/// run. The sample of run `k` of task `t` stands at position `t * runs + k`.
pub open spec fn rows_upto(
    cell: MatrixCell,
    ctx: u32,
    tasks: Seq<(String, String)>,
    runs: u32,
    samples: Seq<GenSample>,
    ats: Seq<i64>,
    n: int,
) -> Seq<RowView>
    decreases n,
{
    if n <= 0 {
        Seq::empty()
    } else {
        rows_upto(cell, ctx, tasks, runs, samples, ats, n - 1) + Seq::new(
            runs as nat,
            |k: int|
                sampled_row(
                    cell,
                    ctx,
                    tasks[n - 1].0@,
                    k as u32,
                    samples[(n - 1) * runs + k],
                    ats[(n - 1) * runs + k],
                ),
        )
    }
}

/// The records of a cell that was booted.
pub fn cell_rows(
    cell: &MatrixCell,
    ctx: u32,
    tasks: &Vec<(String, String)>,
    runs: u32,
    samples: &Vec<GenSample>,
    ats: &Vec<i64>,
) -> (r: Vec<MatrixRow>)
    requires
        samples@.len() == tasks@.len() * runs,
        ats@.len() == samples@.len(),
    ensures
        row_views(r@) == rows_upto(
            *cell,
            ctx,
            tasks@,
            runs,
            samples@,
            ats@,
            tasks@.len() as int,
        ),
{
    let mut r: Vec<MatrixRow> = Vec::new();
    let total = samples.len();
    let mut t: usize = 0;
    let mut at: usize = 0;
    assert(row_views(r@) =~= Seq::<RowView>::empty());
    while t < tasks.len()
        invariant
            total == samples@.len(),
            total == tasks@.len() * runs,
            ats@.len() == total,
            t <= tasks@.len(),
            at == t * runs,
            row_views(r@) == rows_upto(*cell, ctx, tasks@, runs, samples@, ats@, t as int),
        decreases tasks@.len() - t,
    {
        let ghost done = row_views(r@);
        let ghost base = at as int;
        proof {
            assert(base + runs <= total) by (nonlinear_arith)
                requires
                    base == t * runs,
                    total == tasks@.len() * runs,
                    t + 1 <= tasks@.len(),
                    runs >= 0,
            ;
        }
        let ghost mine = Seq::new(
            runs as nat,
            |k: int|
                sampled_row(
                    *cell,
                    ctx,
                    tasks@[t as int].0@,
                    k as u32,
                    samples@[t * runs + k],
                    ats@[t * runs + k],
                ),
        );
        let mut k: u32 = 0;
        while k < runs
            invariant
                total == samples@.len(),
                ats@.len() == total,
                t < tasks@.len(),
                k <= runs,
                base == t * runs,
                base + runs <= total,
                at == base + k,
                mine == Seq::new(
                    runs as nat,
                    |k: int|
                        sampled_row(
                            *cell,
                            ctx,
                            tasks@[t as int].0@,
                            k as u32,
                            samples@[t * runs + k],
                            ats@[t * runs + k],
                        ),
                ),
                row_views(r@) == done + mine.take(k as int),
            decreases runs - k,
        {
            let ghost before = row_views(r@);
            let row = sample_row(cell, ctx, tasks[t].0.as_str(), k, &samples[at], ats[at]);
            r.push(row);
            assert(row_views(r@) =~= before.push(row@));
            assert(mine[k as int] == row@);
            assert(done + mine.take(k + 1) =~= before.push(mine[k as int]));
            k = k + 1;
            at = at + 1;
        }
        assert(mine.take(k as int) =~= mine);
        proof {
            assert(t * runs + runs == (t + 1) * runs) by (nonlinear_arith);
        }
        t = t + 1;
    }
    r
}

} // verus!
