//! The bench grid: its cells, its tasks and its records.
use vstd::prelude::*;

use crate::engines::grid::{
    are_quant_files, bad_task_from, build_cells, cell_views, daemon_from, file_cells, gguf_upto,
    is_gguf, is_sorted_texts, ollama_cells, parse_tasks, quant_files, resolve_bins, text_below,
    CellView,
};
use crate::engines::inference::GenSample;
use crate::engines::matrix::{
    bin_of, cell_rows, fail_row, plan_profile, rows_upto, sampled_row, MatrixCell,
};
use crate::laws::text::lemma_parted;
use crate::order::{in_order, lemma_permutation_hits};
use crate::paths::path_extension;
use crate::profile::{Engine, Profile};
use crate::store::bench::{row_views, MatrixRow};
use crate::text::{lex_below, texts, trim};

verus! {

proof fn lemma_bin(bins: Seq<(Engine, String)>, i: int)
    requires
        0 <= i < bins.len(),
        forall|j: int| 0 <= j < i ==> (#[trigger] bins[j]).0 != bins[i].0,
    ensures
        bin_of(bins, bins[i].0) == Some(bins[i].1@),
    decreases bins.len(),
{
    if i > 0 {
        assert(bins[0].0 != bins[i].0);
        let t = bins.drop_first();
        assert forall|j: int| 0 <= j < i - 1 implies (#[trigger] t[j]).0 != t[i - 1].0 by {
            assert(t[j] == bins[j + 1]);
        }
        lemma_bin(t, i - 1);
    }
}

proof fn lemma_no_bin(bins: Seq<(Engine, String)>, e: Engine)
    requires
        forall|j: int| 0 <= j < bins.len() ==> (#[trigger] bins[j]).0 != e,
    ensures
        bin_of(bins, e) is None,
    decreases bins.len(),
{
    if bins.len() > 0 {
        assert(bins[0].0 != e);
        let t = bins.drop_first();
        assert forall|j: int| 0 <= j < t.len() implies (#[trigger] t[j]).0 != e by {
            assert(t[j] == bins[j + 1]);
        }
        lemma_no_bin(t, e);
    }
}

/// The binary of an engine is the first that is listed for it.
pub proof fn law_first_binary(bins: Seq<(Engine, String)>, i: int, e: Engine)
    ensures
        0 <= i < bins.len() && (forall|j: int|
            0 <= j < i ==> (#[trigger] bins[j]).0 != bins[i].0) ==> bin_of(bins, bins[i].0) == Some(
            bins[i].1@,
        ),
        (forall|j: int| 0 <= j < bins.len() ==> (#[trigger] bins[j]).0 != e) ==> bin_of(bins, e)
            is None,
{
    if 0 <= i < bins.len() && (forall|j: int|
        0 <= j < i ==> (#[trigger] bins[j]).0 != bins[i].0) {
        lemma_bin(bins, i);
    }
    if forall|j: int| 0 <= j < bins.len() ==> (#[trigger] bins[j]).0 != e {
        lemma_no_bin(bins, e);
    }
}

/// A binary that is given wins over one that is configured, except that none
/// is configured for the second llama.cpp.
pub proof fn law_given_binary_wins(
    given: &Vec<(Engine, String)>,
    configured: &Vec<(Engine, String)>,
    r: Vec<(Engine, String)>,
    e: Engine,
)
    requires
        call_ensures(resolve_bins, (given, configured), r),
    ensures
        bin_of(given@, e) is Some ==> bin_of(r@, e) == bin_of(given@, e),
        bin_of(given@, e) is None && e != Engine::UncensoredLlamaCpp ==> bin_of(r@, e) == bin_of(
            configured@,
            e,
        ),
        bin_of(given@, e) is None && e == Engine::UncensoredLlamaCpp ==> bin_of(r@, e) is None,
{
    assert(bin_of(r@, e) == match bin_of(given@, e) {
        Some(b) => Some(b),
        None => crate::engines::grid::configured(configured@, e),
    });
}

/// A task is a label and a prompt around the first equals sign, both trimmed
/// and neither blank.
pub proof fn law_tasks(
    tasks: &Vec<String>,
    r: Result<Vec<(String, String)>, String>,
    i: int,
    label: Seq<char>,
    prompt: Seq<char>,
)
    requires
        call_ensures(parse_tasks, (tasks,), r),
        0 <= i < tasks@.len(),
    ensures
        r is Ok && !label.contains('=') && tasks@[i]@ == label + seq!['='] + prompt ==> {
            &&& (r->Ok_0)@.len() == tasks@.len()
            &&& (r->Ok_0)@[i].0@ == trim(label)
            &&& (r->Ok_0)@[i].1@ == trim(prompt)
            &&& trim(label).len() > 0
            &&& trim(prompt).len() > 0
        },
        r is Ok ==> tasks@[i]@.contains('='),
        !tasks@[i]@.contains('=') ==> r is Err,
        !label.contains('=') && tasks@[i]@ == label + seq!['='] + prompt && (trim(label).len() == 0
            || trim(prompt).len() == 0) ==> r is Err,
{
    let t = tasks@[i]@;
    if !label.contains('=') && t == label + seq!['='] + prompt {
        lemma_parted(label, '=', prompt);
        assert(t.take(label.len() as int) =~= label);
        assert(t.skip(label.len() + 1 as int) =~= prompt);
    }
    if !t.contains('=') {
        lemma_parted(t, '=', t);
    }
    if r is Ok {
        let v = (r->Ok_0)@[i];
        assert(crate::engines::grid::task_of(tasks@[i]@) == Some((v.0@, v.1@)));
    }
}

proof fn lemma_all_tasks(ts: Seq<Seq<char>>, k: int)
    requires
        0 <= k <= ts.len(),
        bad_task_from(ts, k) is Some,
    ensures
        exists|i: int|
            k <= i < ts.len() && crate::engines::grid::task_of(#[trigger] ts[i]) is None,
    decreases ts.len() - k,
{
    if k < ts.len() && crate::engines::grid::task_of(ts[k]) is Some {
        lemma_all_tasks(ts, k + 1);
        let i = choose|i: int|
            k + 1 <= i < ts.len() && crate::engines::grid::task_of(#[trigger] ts[i]) is None;
        assert(crate::engines::grid::task_of(ts[i]) is None);
    }
}

/// A label and a prompt, neither blank, around the first equals sign.
pub open spec fn is_task(t: Seq<char>) -> bool {
    exists|n: int|
        {
            &&& 0 <= n < t.len()
            &&& #[trigger] t[n] == '='
            &&& !t.take(n).contains('=')
            &&& trim(t.take(n)).len() > 0
            &&& trim(t.skip(n + 1)).len() > 0
        }
}

/// Tasks that are well formed are read.
pub proof fn law_good_tasks_are_read(tasks: &Vec<String>, r: Result<Vec<(String, String)>, String>)
    requires
        call_ensures(parse_tasks, (tasks,), r),
        tasks@.len() > 0,
        forall|i: int| 0 <= i < tasks@.len() ==> is_task((#[trigger] tasks@[i])@),
    ensures
        r is Ok,
{
    if r is Err {
        let ts = texts(tasks@);
        lemma_all_tasks(ts, 0);
        let i = choose|i: int|
            0 <= i < ts.len() && crate::engines::grid::task_of(#[trigger] ts[i]) is None;
        let t = ts[i];
        assert(t == tasks@[i]@);
        let n = choose|n: int|
            {
                &&& 0 <= n < t.len()
                &&& #[trigger] t[n] == '='
                &&& !t.take(n).contains('=')
                &&& trim(t.take(n)).len() > 0
                &&& trim(t.skip(n + 1)).len() > 0
            };
        assert(t =~= t.take(n) + seq!['='] + t.skip(n + 1));
        lemma_parted(t.take(n), '=', t.skip(n + 1));
    }
}

/// Where rows of a cell stand: the row of run `k` of task `t` is that of its
/// sample, with the task's label.
proof fn lemma_rows(
    cell: MatrixCell,
    ctx: u32,
    tasks: Seq<(String, String)>,
    runs: u32,
    samples: Seq<GenSample>,
    ats: Seq<i64>,
    n: int,
    t: int,
    k: int,
)
    requires
        0 <= t < n <= tasks.len(),
        0 <= k < runs,
    ensures
        rows_upto(cell, ctx, tasks, runs, samples, ats, n).len() == n * runs,
        0 <= t * runs + k < n * runs,
        rows_upto(cell, ctx, tasks, runs, samples, ats, n)[t * runs + k] == sampled_row(
            cell,
            ctx,
            tasks[t].0@,
            k as u32,
            samples[t * runs + k],
            ats[t * runs + k],
        ),
    decreases n,
{
    let m = runs as int;
    assert(t * m + k < (t + 1) * m && (t + 1) * m <= n * m && 0 <= t * m) by (nonlinear_arith)
        requires
            0 <= t < n,
            0 <= k < m,
    ;
    assert((n - 1) * m + m == n * m) by (nonlinear_arith);
    if n > 1 {
        lemma_rows(cell, ctx, tasks, runs, samples, ats, n - 1, 0, k);
        if t < n - 1 {
            lemma_rows(cell, ctx, tasks, runs, samples, ats, n - 1, t, k);
        }
    } else {
        assert(rows_upto(cell, ctx, tasks, runs, samples, ats, 0).len() == 0);
        assert(t * m == 0 && n * m == m && (n - 1) * m == 0) by (nonlinear_arith)
            requires
                n == 1,
                t == 0,
        ;
    }
}

/// A booted cell has one record for each run of each task, in that order,
/// with what its sample says.
pub proof fn law_records_of_a_cell(
    cell: &MatrixCell,
    ctx: u32,
    tasks: &Vec<(String, String)>,
    runs: u32,
    samples: &Vec<GenSample>,
    ats: &Vec<i64>,
    r: Vec<MatrixRow>,
    t: int,
    k: int,
    i: int,
)
    requires
        call_ensures(cell_rows, (cell, ctx, tasks, runs, samples, ats), r),
        0 <= t < tasks@.len(),
        0 <= k < runs,
        i == t * runs + k,
    ensures
        r@.len() == tasks@.len() * runs,
        0 <= i < r@.len(),
        r@[i].model@ == cell.display@,
        r@[i].ctx == ctx,
        r@[i].task@ == tasks@[t].0@,
        r@[i].run == k,
        r@[i].verdict@ == if samples@[i].ok {
            "RUNNING"@
        } else {
            "ERROR"@
        },
        r@[i].tok_s == samples@[i].tok_s,
        r@[i].tok_s_kind@ == samples@[i].tok_s_kind@,
        r@[i].gen_tokens == samples@[i].gen_tokens,
        r@[i].prompt_tokens == samples@[i].prompt_tokens,
        r@[i].wall_ms == samples@[i].wall_ms,
        r@[i].output@ == samples@[i].text@,
        r@[i].at == ats@[i],
        r@[i].prompt_tps == samples@[i].prompt_tps,
        r@[i].ttft_ms == samples@[i].ttft_ms,
        cell.engine == Engine::LlamaCpp ==> r@[i].engine@ == "llamacpp"@,
        cell.engine == Engine::Ollama ==> r@[i].engine@ == "ollama"@,
        cell.engine == Engine::FreeToken ==> r@[i].engine@ == "freetoken"@,
{
    lemma_rows(*cell, ctx, tasks@, runs, samples@, ats@, tasks@.len() as int, t, k);
    assert(row_views(r@).len() == r@.len());
    assert(row_views(r@)[i] == r@[i]@);
}

/// A trial without a sample is recorded with its reason and no measurement.
pub proof fn law_record_of_a_failure(
    cell: &MatrixCell,
    ctx: u32,
    task: &str,
    run: u32,
    verdict: &str,
    summary: &str,
    at: i64,
    r: MatrixRow,
)
    requires
        call_ensures(fail_row, (cell, ctx, task, run, verdict, summary, at), r),
    ensures
        r.model@ == cell.display@,
        r.ctx == ctx,
        r.task@ == task@,
        r.run == run,
        r.verdict@ == verdict@,
        r.summary@ == summary@,
        r.at == at,
        r.tok_s is None,
        r.gen_tokens is None,
        r.prompt_tokens is None,
        r.prompt_tps is None,
        r.wall_ms == 0,
        r.output@.len() == 0,
{
    let v = r@;
    assert(v.model == r.model@);
}

/// The profile of a cell: of Ollama's store the daemon, on this machine, with
/// the model's id; of a local file the derived one, with a listed binary in
/// place of its own.
pub proof fn law_profile_of_a_cell(
    cell: &MatrixCell,
    bins: &Vec<(Engine, String)>,
    derived: Result<Profile, String>,
    r: Result<Profile, String>,
)
    requires
        call_ensures(plan_profile, (cell, bins, derived), r),
    ensures
        cell.engine == Engine::Ollama ==> {
            &&& r is Ok
            &&& (r->Ok_0).engine == Engine::Ollama
            &&& (r->Ok_0).host@ == "127.0.0.1"@
            &&& (r->Ok_0).model@ == cell.model_id@
            &&& (r->Ok_0).alias@ == cell.model_id@
            &&& bin_of(bins@, Engine::Ollama) is Some ==> (r->Ok_0).bin@ == bin_of(
                bins@,
                Engine::Ollama,
            )->0
            &&& bin_of(bins@, Engine::Ollama) is None ==> (r->Ok_0).bin@ == "ollama"@
        },
        cell.engine != Engine::Ollama && derived is Ok ==> {
            &&& r is Ok
            &&& (r->Ok_0).model == (derived->Ok_0).model
            &&& (r->Ok_0).ctx_size == (derived->Ok_0).ctx_size
            &&& (r->Ok_0).engine == (derived->Ok_0).engine
            &&& bin_of(bins@, cell.engine) is Some ==> (r->Ok_0).bin@ == bin_of(
                bins@,
                cell.engine,
            )->0
            &&& bin_of(bins@, cell.engine) is None ==> (r->Ok_0).bin@ == (derived->Ok_0).bin@
        },
        cell.engine != Engine::Ollama && derived is Err ==> r is Err,
{
}

proof fn lemma_gguf(files: Seq<Seq<char>>, n: int)
    requires
        0 <= n <= files.len(),
    ensures
        forall|k: int|
            0 <= k < gguf_upto(files, n).len() ==> is_gguf(#[trigger] gguf_upto(files, n)[k])
                && files.contains(gguf_upto(files, n)[k]),
        forall|i: int|
            0 <= i < n && is_gguf(#[trigger] files[i]) ==> gguf_upto(files, n).contains(files[i]),
        gguf_upto(files, n).len() <= n,
    decreases n,
{
    if n > 0 {
        lemma_gguf(files, n - 1);
        let rest = gguf_upto(files, n - 1);
        let all = gguf_upto(files, n);
        assert(files.contains(files[n - 1]));
        assert forall|i: int| 0 <= i < n && is_gguf(#[trigger] files[i]) implies all.contains(
            files[i],
        ) by {
            if i == n - 1 {
                assert(all[rest.len() as int] == files[i]);
            } else {
                assert(rest.contains(files[i]));
                let x = choose|x: int| 0 <= x < rest.len() && rest[x] == files[i];
                assert(all[x] == files[i]);
            }
        }
    }
}

proof fn lemma_sorted(r: Seq<Seq<char>>, v: Seq<Seq<char>>)
    requires
        is_sorted_texts(r, v),
    ensures
        r.len() == v.len(),
        forall|i: int, j: int|
            0 <= i < j < r.len() ==> !lex_below(#[trigger] r[j], #[trigger] r[i]),
        forall|i: int| 0 <= i < r.len() ==> v.contains(#[trigger] r[i]),
        forall|i: int| 0 <= i < v.len() ==> r.contains(#[trigger] v[i]),
{
    let p = choose|p: Seq<usize>|
        #[trigger] in_order(p, v.len(), text_below(v)) && r.len() == v.len() && forall|i: int|
            0 <= i < r.len() ==> #[trigger] r[i] == v[p[i] as int];
    assert forall|i: int| 0 <= i < r.len() implies v.contains(#[trigger] r[i]) by {
        assert(p[i] < v.len());
        assert(r[i] == v[p[i] as int]);
    }
    assert forall|i: int| 0 <= i < v.len() implies r.contains(#[trigger] v[i]) by {
        let k = lemma_permutation_hits(p, v.len(), i);
        assert(r[k] == v[p[k] as int]);
    }
    assert forall|i: int, j: int| 0 <= i < j < r.len() implies !lex_below(
        #[trigger] r[j],
        #[trigger] r[i],
    ) by {
        assert(p[i] < v.len() && p[j] < v.len());
        assert(r[i] == v[p[i] as int] && r[j] == v[p[j] as int]);
        crate::text::lemma_lex(r[i], r[j], r[i]);
    }
}

/// Of a directory every file with the extension `gguf` is benched, by name;
/// of a file that file, if it has the extension.
pub proof fn law_files_to_bench(
    model: &str,
    listing: Option<&Vec<String>>,
    r: Result<Vec<String>, String>,
    i: int,
)
    requires
        call_ensures(quant_files, (model, listing), r),
    ensures
        listing is None ==> (r is Ok <==> is_gguf(model@)),
        listing is None && r is Ok ==> texts((r->Ok_0)@) == seq![model@],
        listing is Some && 0 <= i < (listing->0)@.len() && is_gguf((listing->0)@[i]@) ==> r is Ok
            && texts((r->Ok_0)@).contains((listing->0)@[i]@),
        listing is Some && r is Ok && 0 <= i < (r->Ok_0)@.len() ==> is_gguf((r->Ok_0)@[i]@)
            && texts((listing->0)@).contains((r->Ok_0)@[i]@),
        r is Ok ==> (r->Ok_0)@.len() > 0,
        r is Ok ==> forall|j: int, k: int|
            0 <= j < k < (r->Ok_0)@.len() ==> !lex_below(
                (#[trigger] (r->Ok_0)@[k])@,
                (#[trigger] (r->Ok_0)@[j])@,
            ),
{
    if listing is Some {
        let files = texts((listing->0)@);
        let found = gguf_upto(files, files.len() as int);
        lemma_gguf(files, files.len() as int);
        if 0 <= i < files.len() && is_gguf((listing->0)@[i]@) {
            assert(files[i] == (listing->0)@[i]@);
            assert(found.contains(files[i]));
        }
        if r is Ok {
            let out = texts((r->Ok_0)@);
            lemma_sorted(out, found);
            if 0 <= i < files.len() && is_gguf((listing->0)@[i]@) {
                let x = choose|x: int| 0 <= x < found.len() && found[x] == files[i];
                assert(out.contains(found[x]));
            }
            if 0 <= i < (r->Ok_0)@.len() {
                assert(out[i] == (r->Ok_0)@[i]@);
                assert(found.contains(out[i]));
                let x = choose|x: int| 0 <= x < found.len() && found[x] == out[i];
                assert(is_gguf(found[x]));
            }
            assert forall|j: int, k: int| 0 <= j < k < (r->Ok_0)@.len() implies !lex_below(
                (#[trigger] (r->Ok_0)@[k])@,
                (#[trigger] (r->Ok_0)@[j])@,
            ) by {
                assert(!lex_below(out[k], out[j]));
            }
        }
    } else if r is Ok {
        assert(texts((r->Ok_0)@).len() == 1);
    }
}

/// A file counts by its extension.
pub proof fn law_gguf_by_extension(path: &str, ext: Option<String>)
    requires
        call_ensures(path_extension, (path,), ext),
    ensures
        is_gguf(path@) <==> ext is Some && (ext->0)@ == "gguf"@,
{
}

proof fn lemma_cells(files: Seq<Seq<char>>, es: Seq<Engine>, n: int, f: int, k: int)
    requires
        0 <= f < n <= files.len(),
        0 <= k < es.len(),
    ensures
        file_cells(files, es, n).len() == n * es.len(),
        0 <= f * es.len() + k < n * es.len(),
        file_cells(files, es, n)[f * es.len() + k] == (CellView {
            engine: es[k],
            model_id: files[f],
            display: crate::engines::grid::file_label(files[f]),
        }),
    decreases n,
{
    let m = es.len() as int;
    assert(f * m + k < (f + 1) * m && (f + 1) * m <= n * m && 0 <= f * m) by (nonlinear_arith)
        requires
            0 <= f < n,
            0 <= k < m,
    ;
    assert((n - 1) * m + m == n * m) by (nonlinear_arith);
    if n > 1 {
        lemma_cells(files, es, n - 1, 0, k);
        if f < n - 1 {
            lemma_cells(files, es, n - 1, f, k);
        }
    } else {
        assert(file_cells(files, es, 0).len() == 0);
        assert(f * m == 0 && n * m == m && (n - 1) * m == 0) by (nonlinear_arith)
            requires
                n == 1,
                f == 0,
        ;
    }
}

/// One of the cells is of a file and an engine.
pub open spec fn has_cell(v: Seq<MatrixCell>, e: Engine, model_id: Seq<char>) -> bool {
    exists|i: int|
        0 <= i < v.len() && (#[trigger] v[i]).engine == e && v[i].model_id@ == model_id
}

proof fn lemma_no_daemon(es: Seq<Engine>, k: int)
    requires
        0 <= k,
        forall|i: int| 0 <= i < es.len() ==> #[trigger] es[i] != Engine::Ollama,
    ensures
        daemon_from(es, k) is None,
    decreases es.len() - k,
{
    if k < es.len() {
        assert(es[k] != Engine::Ollama);
        lemma_no_daemon(es, k + 1);
    }
}

proof fn lemma_daemon(es: Seq<Engine>, k: int, i: int)
    requires
        0 <= k <= i < es.len(),
        es[i] == Engine::Ollama,
    ensures
        daemon_from(es, k) is Some,
    decreases es.len() - k,
{
    if es[k] != Engine::Ollama {
        lemma_daemon(es, k + 1, i);
    }
}

/// The grid of a model file has that file with every engine, and every id of
/// Ollama's store with Ollama. Ollama itself takes no files.
pub proof fn law_cells(
    model: &str,
    listing: Option<&Vec<String>>,
    engines: &Vec<Engine>,
    ollama: &Vec<String>,
    r: Result<Vec<MatrixCell>, String>,
    k: int,
)
    requires
        call_ensures(build_cells, (model, listing, engines, ollama), r),
    ensures
        0 <= k < engines@.len() && engines@[k] == Engine::Ollama ==> r is Err,
        r is Ok && listing is None ==> is_gguf(model@) && (r->Ok_0)@.len() == engines@.len()
            + ollama@.len(),
        r is Ok && listing is None && 0 <= k < engines@.len() ==> has_cell(
            (r->Ok_0)@,
            engines@[k],
            model@,
        ),
        r is Ok && 0 <= k < ollama@.len() ==> has_cell((r->Ok_0)@, Engine::Ollama, ollama@[k]@),
        r is Ok ==> (r->Ok_0)@.len() > 0,
        listing is None && is_gguf(model@) && (forall|i: int|
            0 <= i < engines@.len() ==> #[trigger] engines@[i] != Engine::Ollama)
            && engines@.len() + ollama@.len() > 0 ==> r is Ok,
{
    let es = engines@;
    let ids = texts(ollama@);
    let given = crate::engines::discover::opt_texts(listing);
    if 0 <= k < es.len() && es[k] == Engine::Ollama {
        lemma_daemon(es, 0, k);
    }
    if forall|i: int| 0 <= i < es.len() ==> #[trigger] es[i] != Engine::Ollama {
        lemma_no_daemon(es, 0);
    }
    if daemon_from(es, 0) is None {
        let files = choose|files: Result<Vec<String>, String>|
            #[trigger] are_quant_files(files, model@, given) && match files {
                Err(e) => r is Err && r->Err_0@ == e@,
                Ok(fs) => {
                    let cells = file_cells(texts(fs@), es, fs@.len() as int) + ollama_cells(ids);
                    if cells.len() == 0 {
                        r is Err && r->Err_0@
                            == "nothing to grid — pass a model file/dir and/or Ollama ids"@
                    } else {
                        r is Ok && cell_views(r->Ok_0@) == cells
                    }
                },
            };
        if files is Ok {
            let fs = texts((files->Ok_0)@);
            let own = file_cells(fs, es, fs.len() as int);
            let cells = own + ollama_cells(ids);
            if listing is None {
                assert(fs.len() == 1 && fs[0] == model@);
                assert(file_cells(fs, es, 0).len() == 0);
                assert(own.len() == es.len());
                if r is Ok {
                    assert(cell_views((r->Ok_0)@).len() == (r->Ok_0)@.len());
                    if 0 <= k < es.len() {
                        lemma_cells(fs, es, 1, 0, k);
                        assert(0 * es.len() + k == k);
                        assert(cell_views((r->Ok_0)@)[k] == cells[k]);
                        assert((r->Ok_0)@[k].engine == es[k]);
                    }
                }
            }
            if r is Ok {
                assert(cell_views((r->Ok_0)@).len() == (r->Ok_0)@.len());
                if 0 <= k < ids.len() {
                    let at = own.len() + k;
                    assert(ids[k] == ollama@[k]@);
                    assert(cell_views((r->Ok_0)@)[at] == cells[at]);
                    assert((r->Ok_0)@[at].engine == Engine::Ollama);
                }
            }
        }
    }
}

} // verus!
