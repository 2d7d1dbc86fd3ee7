//! What a comparison, a discovery and a model directory come to in the end.
use vstd::prelude::*;

use crate::engines::compare::{
    are_candidates, are_marks, better, candidate_keys, choose_verdict, grouped, is_candidate,
    is_report, is_trial, report_from_rows, rows_of, rows_upto, Candidate, CandidateMarks,
    CompareReport, Means, ScoredTrial,
};
use crate::engines::discover::{
    named_upto, plan_trials, protocol_for, trial_failed, TrialPlan, TrialResult,
};
use crate::engines::health::{version_from, version_in_metrics, version_on_line};
use crate::engines::systemd::backup_file;
use crate::fitplan::manifest_from;
use crate::importer::strip;
use crate::json::JsonView;
use crate::laws::launch::lemma_first_with_id;
use crate::measure::Measure;
use crate::model::ModelMeta;
use crate::order::in_order;
use crate::paths::{extension, file_name, stem_of, trim_slashes};
use crate::profile::{Engine, EngineProtocol, Profile};
use crate::runtime::{ProtocolSer, RuntimeManifest};
use crate::safetensors::{found_in, found_in_items, SafetensorsModel};
use crate::store::bench::{row_views, MatrixRow};
use crate::text::{contains, decimal, lines, opt_text, texts, trim, uppercased, words};

verus! {

/// A record of the grid, of a trial that ran or not.
pub open spec fn is_trial_of(t: ScoredTrial, r: MatrixRow, score: Measure) -> bool {
    &&& t.task@ == r.task@
    &&& t.run == r.run
    &&& t.ok <==> r.verdict@ == "RUNNING"@
    &&& t.ok ==> t.score == score && t.error is None
    &&& !t.ok ==> t.score.bits == 0 && opt_text(t.error) == Some(r.summary@)
    &&& t.tok_s == r.tok_s
    &&& t.wall_ms == r.wall_ms
    &&& t.gen_tokens == r.gen_tokens
    &&& t.prompt_tokens == r.prompt_tokens
    &&& t.output@ == r.output@
    &&& t.tok_s_kind@ == r.tok_s_kind@
}

proof fn lemma_grouped(cs: Seq<Candidate>, n: int, k: int)
    requires
        0 <= n <= cs.len(),
        0 <= k < grouped(cs, n).len(),
    ensures
        ({
            let (c, i) = grouped(cs, n)[k];
            0 <= c < n && exists|x: int|
                0 <= x < cs[c].rows@.len() && #[trigger] cs[c].rows@[x] == i
        }),
    decreases n,
{
    let rest = grouped(cs, n - 1);
    if k < rest.len() {
        lemma_grouped(cs, n - 1, k);
    } else {
        assert(cs[n - 1].rows@[k - rest.len()] == grouped(cs, n)[k].1);
    }
}

/// A trial that is reported is of a record: it is scored where that ran, and
/// scores nothing where it did not.
pub proof fn law_trials_of_a_comparison(
    rows: &Vec<MatrixRow>,
    seed: u64,
    scores: &Vec<Measure>,
    means: &Vec<Means>,
    r: CompareReport,
    k: int,
)
    requires
        call_ensures(report_from_rows, (rows, seed, scores, means), r),
        0 <= k < r.trials@.len(),
    ensures
        exists|i: int|
            0 <= i < rows@.len() && is_trial_of(
                r.trials@[k],
                #[trigger] rows@[i],
                scores@[i],
            ),
{
    let (cs, marks, p) = choose|cs: Seq<Candidate>, marks: Seq<CandidateMarks>, p: Seq<usize>|
        {
            &&& are_candidates(cs, rows@, seed)
            &&& are_marks(marks, cs, means@)
            &&& in_order(p, marks.len(), better(marks))
            &&& #[trigger] is_report(r, rows@, cs, scores@, marks, p)
        };
    let flat = grouped(cs, cs.len() as int);
    lemma_grouped(cs, cs.len() as int, k);
    let (c, i) = flat[k];
    let keys = candidate_keys(rows@);
    assert(is_candidate(cs[c], rows@, keys[c]));
    let x = choose|x: int| 0 <= x < cs[c].rows@.len() && #[trigger] cs[c].rows@[x] == i;
    let at = rows_of(rows@, keys[c]);
    assert(crate::engines::compare::positions(cs[c].rows@)[x] == i);
    assert(at[x] == i);
    lemma_within(rows@, keys[c], rows@.len() as int, x);
    assert(is_trial(
        r.trials@[k],
        cs[c].trial@,
        rows@[i],
        crate::engines::compare::score_of(rows@[i], scores@[i]),
    ));
    assert(is_trial_of(r.trials@[k], rows@[i], scores@[i]));
}

proof fn lemma_within(rows: Seq<MatrixRow>, key: Seq<char>, n: int, x: int)
    requires
        0 <= n <= rows.len(),
        0 <= x < rows_upto(rows, key, n).len(),
    ensures
        0 <= rows_upto(rows, key, n)[x] < n,
    decreases n,
{
    if n > 0 && x < rows_upto(rows, key, n - 1).len() {
        lemma_within(rows, key, n - 1, x);
    }
}

/// The verdict names the first of the ranking with its score, its speed and
/// its runs, and the second behind it.
pub proof fn law_verdict(
    cs: &Vec<Candidate>,
    marks: &Vec<CandidateMarks>,
    p: &Vec<usize>,
    r: String,
)
    requires
        call_ensures(choose_verdict, (cs, marks, p), r),
        p@.len() > 0 ==> p@[0] < cs@.len(),
    ensures
        p@.len() == 0 ==> r@ == "no trials to compare"@,
        p@.len() >= 1 ==> {
            let b = p@[0] as int;
            r@ == cs@[b].trial@ + " wins this grid with a mean score of "@ + marks@[b].score_text@
                + " ("@ + marks@[b].tok_s_text@ + " tok/s avg, "@ + decimal(cs@[b].ok_runs as nat)
                + "/"@ + decimal(cs@[b].rows@.len()) + " runs OK)."@ + if p@.len() > 1 {
                " runner-up "@ + cs@[p@[1] as int].trial@ + " ("@
                    + marks@[p@[1] as int].score_text@ + ")"@
            } else {
                Seq::empty()
            }
        },
{
}

proof fn lemma_known(ms: Seq<RuntimeManifest>, id: Seq<char>, k: int)
    requires
        0 <= k <= ms.len(),
        forall|j: int| 0 <= j < k ==> (#[trigger] ms[j]).id@ != id,
    ensures
        manifest_from(ms, id, k) is None <==> forall|j: int|
            0 <= j < ms.len() ==> (#[trigger] ms[j]).id@ != id,
        manifest_from(ms, id, k) is Some ==> 0 <= manifest_from(ms, id, k)->0 < ms.len()
            && ms[manifest_from(ms, id, k)->0].id@ == id,
    decreases ms.len() - k,
{
    if k < ms.len() && ms[k].id@ != id {
        lemma_known(ms, id, k + 1);
    }
}

/// No manifest has the id.
pub open spec fn is_unknown(ms: Seq<RuntimeManifest>, id: Seq<char>) -> bool {
    forall|j: int| 0 <= j < ms.len() ==> (#[trigger] ms[j]).id@ != id
}

proof fn lemma_named(ms: Seq<RuntimeManifest>, ids: Seq<Seq<char>>, n: int)
    requires
        0 <= n <= ids.len(),
    ensures
        forall|i: int|
            0 <= i < n && is_unknown(ms, #[trigger] ids[i]) ==> named_upto(ms, ids, n).1.contains(
                (ids[i], "unknown runtime id"@),
            ),
        forall|i: int|
            0 <= i < n && !is_unknown(ms, #[trigger] ids[i]) ==> is_chosen(
                ms,
                named_upto(ms, ids, n).0,
                ids[i],
            ),
        named_upto(ms, ids, n).0.len() + named_upto(ms, ids, n).1.len() == n,
    decreases n,
{
    if n > 0 {
        lemma_named(ms, ids, n - 1);
        lemma_known(ms, ids[n - 1], 0);
        let (at0, skip0) = named_upto(ms, ids, n - 1);
        let (at, skip) = named_upto(ms, ids, n);
        assert forall|i: int| 0 <= i < n && is_unknown(ms, #[trigger] ids[i]) implies skip.contains(
            (ids[i], "unknown runtime id"@),
        ) by {
            let x = (ids[i], "unknown runtime id"@);
            if i == n - 1 {
                assert(skip[skip0.len() as int] == x);
            } else {
                assert(skip0.contains(x));
                let k = choose|k: int| 0 <= k < skip0.len() && skip0[k] == x;
                assert(skip[k] == x);
            }
        }
        assert forall|i: int| 0 <= i < n && !is_unknown(ms, #[trigger] ids[i]) implies is_chosen(
            ms,
            at,
            ids[i],
        ) by {
            if i == n - 1 {
                assert(ms[at[at0.len() as int]].id@ == ids[i]);
            } else {
                assert(is_chosen(ms, at0, ids[i]));
                let k = choose|k: int|
                    0 <= k < at0.len() && ms[#[trigger] at0[k]].id@ == ids[i];
                assert(at[k] == at0[k]);
            }
        }
    }
}

/// One of the positions is of a manifest with the id.
pub open spec fn is_chosen(ms: Seq<RuntimeManifest>, at: Seq<int>, id: Seq<char>) -> bool {
    exists|k: int| 0 <= k < at.len() && ms[#[trigger] at[k]].id@ == id
}

/// Of the runtimes that are asked for, those that are unknown are skipped, and
/// that is said.
pub proof fn law_unknown_runtimes_are_skipped(
    meta: &ModelMeta,
    ms: &Vec<RuntimeManifest>,
    ids: &Vec<String>,
    variants: u32,
    cap: Option<u32>,
    vram_mb: u64,
    r: Result<(Vec<TrialPlan>, Vec<(String, String)>), String>,
    i: int,
)
    requires
        call_ensures(plan_trials, (meta, ms, Some(ids), variants, cap, vram_mb), r),
        0 <= i < ids@.len(),
    ensures
        r is Ok && is_unknown(ms@, ids@[i]@) ==> crate::params::pair_texts(
            (r->Ok_0).1@,
        ).contains((ids@[i]@, "unknown runtime id"@)),
        r is Err ==> is_unknown(ms@, ids@[i]@),
        !is_unknown(ms@, ids@[i]@) ==> r is Ok,
{
    let all = texts(ids@);
    assert(all[i] == ids@[i]@);
    lemma_named(ms@, all, all.len() as int);
    let (at, skips) = named_upto(ms@, all, all.len() as int);
    if r is Ok && is_unknown(ms@, ids@[i]@) {
        let x = (ids@[i]@, "unknown runtime id"@);
        assert(skips.contains(x));
        let k = choose|k: int| 0 <= k < skips.len() && skips[k] == x;
        let out = crate::params::pair_texts((r->Ok_0).1@);
        assert(out[k] == x);
    }
    if !is_unknown(ms@, ids@[i]@) {
        assert(is_chosen(ms@, at, all[i]));
    }
}

/// A trial whose engine did not boot has one record, with the reason.
pub proof fn law_trial_that_failed(
    plan: &TrialPlan,
    verdict: &str,
    summary: &str,
    at: i64,
    r: TrialResult,
)
    requires
        call_ensures(trial_failed, (plan, verdict, summary, at), r),
    ensures
        r.boot_verdict@ == verdict@,
        r.boot_summary@ == summary@,
        r.best_tps is None,
        r.ctx == plan.profile.ctx_size,
        r.runtime_id@ == plan.runtime_id@,
        r.rows@.len() == 1,
        r.rows@[0].verdict@ == verdict@,
        r.rows@[0].summary@ == summary@,
        r.rows@[0].engine@ == plan.runtime_id@,
        r.rows@[0].model@ == plan.profile.model@,
        r.rows@[0].tok_s is None,
        r.rows@[0].at == at,
{
    assert(row_views(r.rows@).len() == 1);
    assert(row_views(r.rows@)[0] == r.rows@[0]@);
}

/// A loadout of a runtime in the registry speaks its protocol; one of an
/// engine that engine's.
pub proof fn law_protocols(p: &Profile, ms: &Vec<RuntimeManifest>, r: EngineProtocol, i: int)
    requires
        call_ensures(protocol_for, (p, ms), r),
    ensures
        p.runtime_id is None ==> (r == EngineProtocol::OllamaChat <==> p.engine == Engine::Ollama),
        p.runtime_id is Some && 0 <= i < ms@.len() && ms@[i].id@ == (p.runtime_id->0)@ && (forall|
            j: int,
        |
            0 <= j < i ==> (#[trigger] ms@[j]).id@ != ms@[i].id@) ==> (r
            == EngineProtocol::OllamaChat <==> ms@[i].protocol == ProtocolSer::OllamaChat),
{
    crate::profile::law_engine_id_round_trip(p.engine);
    if p.runtime_id is Some && 0 <= i < ms@.len() && ms@[i].id@ == (p.runtime_id->0)@ && (forall|
        j: int,
    |
        0 <= j < i ==> (#[trigger] ms@[j]).id@ != ms@[i].id@) {
        lemma_first_with_id(ms@, i, 0);
    }
}

/// The line tells a version: its last word without quotes, unless that is
/// nothing or zero.
pub open spec fn tells_version(line: Seq<char>, v: Seq<char>) -> bool {
    let l = trim(line);
    &&& contains(l, "llama_version"@)
    &&& l.len() == 0 || l[0] != '#'
    &&& words(l).len() > 0
    &&& strip(words(l).last(), '"') == v
    &&& v.len() > 0
    &&& v != "0"@
}

proof fn lemma_version(ls: Seq<Seq<char>>, k: int, i: int, v: Seq<char>)
    requires
        0 <= k <= i < ls.len(),
        tells_version(ls[i], v),
        forall|j: int, w: Seq<char>| 0 <= j < i ==> !#[trigger] tells_version(ls[j], w),
    ensures
        version_from(ls, k) == Some(v),
    decreases i - k,
{
    if k < i {
        if version_on_line(ls[k]) is Some {
            assert(tells_version(ls[k], version_on_line(ls[k])->0));
        }
        lemma_version(ls, k + 1, i, v);
    }
}

/// The version in metrics is that of the first line that tells one.
pub proof fn law_version_in_metrics(text: &str, r: Option<String>, i: int, v: Seq<char>)
    requires
        call_ensures(version_in_metrics, (text,), r),
        0 <= i < lines(text@).len(),
        tells_version(lines(text@)[i], v),
        forall|j: int, w: Seq<char>| 0 <= j < i ==> !#[trigger] tells_version(lines(text@)[j], w),
    ensures
        opt_text(r) == Some(v),
{
    lemma_version(lines(text@), 0, i, v);
}

/// The backup of a file is named after it, with the time behind its
/// extension.
pub proof fn law_backup_names(
    path: &str,
    ts: &str,
    r: String,
    dir: Seq<char>,
    stem: Seq<char>,
    ext: Seq<char>,
)
    requires
        call_ensures(backup_file, (path, ts), r),
        path@ == dir + (stem + seq!['.'] + ext),
        trim_slashes(path@) == path@,
        file_name(path@) == Some(stem + seq!['.'] + ext),
        stem_of(stem + seq!['.'] + ext) == stem,
        extension(path@) == Some(ext),
    ensures
        r@ == path@ + ".bak."@ + ts@,
{
    let name = stem + seq!['.'] + ext;
    reveal_strlit(".");
    reveal_strlit(".bak.");
    assert("."@ =~= seq!['.']);
    assert(path@.take(path@.len() - name.len()) =~= dir);
    assert(r@ =~= path@ + ".bak."@ + ts@);
}

/// The architecture aside, a quantised directory is named by its quantiser:
/// what speaks of its format, else the algorithm unless that is mixed, else
/// the producer's name; without one the document's own method.
pub proof fn law_quant_of_a_directory(
    model: &SafetensorsModel,
    r: Option<String>,
    q: JsonView,
    a: JsonView,
)
    requires
        call_ensures(SafetensorsModel::quant, (model,), r),
    ensures
        model.quant_config is None && model.config@.get("quantization_config"@) == Some(q)
            && q.get("quant_method"@) == Some(a) && a is Str ==> opt_text(r) == Some(a->Str_0),
        model.quant_config is None && model.config@.get("quantization_config"@) is None ==> r is None,
        model.quant_config is Some && found_in((model.quant_config->0)@, "NVFP4"@) is Some
            ==> opt_text(r) == Some(uppercased(found_in((model.quant_config->0)@, "NVFP4"@)->0)),
        model.quant_config is Some && found_in((model.quant_config->0)@, "NVFP4"@) is None && (
        model.quant_config->0)@.get("quantization"@) == Some(q) && q.get("quant_algo"@) == Some(a)
            && a is Str && a->Str_0 != "MIXED_PRECISION"@ ==> opt_text(r) == Some(a->Str_0),
{
}

/// A text is found in a document where one of its strings holds it.
pub proof fn law_searching_documents(s: Seq<char>, needle: Seq<char>, v: Seq<JsonView>, b: bool)
    ensures
        contains(s, needle) ==> found_in(JsonView::Str(s), needle) == Some(s),
        !contains(s, needle) ==> found_in(JsonView::Str(s), needle) is None,
        found_in(JsonView::Null, needle) is None,
        found_in(JsonView::Bool(b), needle) is None,
        found_in(JsonView::Array(v), needle) is Some ==> exists|i: int|
            0 <= i < v.len() && found_in(#[trigger] v[i], needle) == found_in(
                JsonView::Array(v),
                needle,
            ),
        (forall|i: int| 0 <= i < v.len() ==> found_in(#[trigger] v[i], needle) is None) ==> found_in(
            JsonView::Array(v),
            needle,
        ) is None,
{
    lemma_items(v, needle);
}

proof fn lemma_items(v: Seq<JsonView>, needle: Seq<char>)
    ensures
        found_in_items(v, needle) is Some ==> exists|i: int|
            0 <= i < v.len() && found_in(#[trigger] v[i], needle) == found_in_items(v, needle),
        (forall|i: int| 0 <= i < v.len() ==> found_in(#[trigger] v[i], needle) is None)
            ==> found_in_items(v, needle) is None,
    decreases v.len(),
{
    if v.len() > 0 {
        let rest = v.drop_last();
        lemma_items(rest, needle);
        if found_in_items(rest, needle) is Some {
            let i = choose|i: int|
                0 <= i < rest.len() && found_in(#[trigger] rest[i], needle) == found_in_items(
                    rest,
                    needle,
                );
            assert(v[i] == rest[i]);
        } else if found_in_items(v, needle) is Some {
            assert(v[v.len() - 1] == v.last());
        }
        if forall|i: int| 0 <= i < v.len() ==> found_in(#[trigger] v[i], needle) is None {
            assert forall|i: int| 0 <= i < rest.len() implies found_in(
                #[trigger] rest[i],
                needle,
            ) is None by {
                assert(rest[i] == v[i]);
            }
            assert(found_in(v[v.len() - 1], needle) is None);
        }
    }
}

} // verus!
