//! What is measured: the grid, the sweep, the trials and their results.
use vstd::prelude::*;

use crate::engines::autotune::{
    best_trial, layers_upto, sweep, sweep_ctx, sweep_upto, AutotuneParams, SweepPoint,
};
use crate::engines::discover::{
    best_upto, fastest_upto, half_ctx, loading_upto, plan_trials, points_of, points_upto, served,
    served_upto, summarize, trial_measured, trial_points, DiscoveryReport, TrialPlan, TrialResult,
};
use crate::engines::inference::GenSample;
use crate::fitplan::{max_ctx_spec, target_of};
use crate::measure::Measure;
use crate::model::ModelMeta;
use crate::profile::Profile;
use crate::runtime::{supports_spec, RuntimeManifest};
use crate::text::{decimal, opt_text};

verus! {

/// Doubles compare by their bits: positive ones as their bits do, negative
/// ones the other way round, and below the positive. What is no number is
/// neither below nor above.
pub proof fn law_measures(a: Measure, b: Measure, r: bool, p: bool)
    requires
        call_ensures(Measure::is_below, (a, b), r),
        call_ensures(Measure::is_positive, (a,), p),
    ensures
        a.bits <= 0x7ff0_0000_0000_0000 && b.bits <= 0x7ff0_0000_0000_0000 ==> r == (a.bits
            < b.bits),
        0x8000_0000_0000_0000 <= a.bits <= 0xfff0_0000_0000_0000 && 0x8000_0000_0000_0000 <= b.bits
            <= 0xfff0_0000_0000_0000 ==> r == (a.bits > b.bits),
        0x8000_0000_0000_0000 < a.bits <= 0xfff0_0000_0000_0000 && b.bits <= 0x7ff0_0000_0000_0000
            ==> r,
        a.bits <= 0x7ff0_0000_0000_0000 && 0x8000_0000_0000_0000 <= b.bits ==> !r,
        0x7ff0_0000_0000_0000 < a.bits < 0x8000_0000_0000_0000 || a.bits > 0xfff0_0000_0000_0000
            ==> !r,
        0x7ff0_0000_0000_0000 < b.bits < 0x8000_0000_0000_0000 || b.bits > 0xfff0_0000_0000_0000
            ==> !r,
        p <==> 0 < a.bits <= 0x7ff0_0000_0000_0000,
        r == a.below(b),
        p == a.positive(),
{
}

proof fn lemma_layers(x: u32, b: Seq<u32>, c: Seq<u32>, n: int, j: int, k: int)
    requires
        0 <= j < n <= b.len(),
        0 <= k < c.len(),
    ensures
        layers_upto(x, b, c, n).len() == n * c.len(),
        0 <= j * c.len() + k < n * c.len(),
        layers_upto(x, b, c, n)[j * c.len() + k] == (SweepPoint { ctx: x, ngl: b[j], ubatch: c[k] }),
    decreases n,
{
    let m = c.len() as int;
    assert(j * m + k < (j + 1) * m && (j + 1) * m <= n * m && 0 <= j * m) by (nonlinear_arith)
        requires
            0 <= j < n,
            0 <= k < m,
    ;
    assert((n - 1) * m + m == n * m) by (nonlinear_arith);
    if n > 1 {
        lemma_layers(x, b, c, n - 1, 0, k);
        if j < n - 1 {
            lemma_layers(x, b, c, n - 1, j, k);
        }
    } else {
        assert(layers_upto(x, b, c, 0).len() == 0);
        assert(n == 1 && j == 0);
        assert(j * m == 0 && n * m == m && (n - 1) * m == 0) by (nonlinear_arith)
            requires
                n == 1,
                j == 0,
        ;
    }
}

proof fn lemma_sweep(a: Seq<u32>, b: Seq<u32>, c: Seq<u32>, n: int, i: int, j: int, k: int)
    requires
        0 <= i < n <= a.len(),
        0 <= j < b.len(),
        0 <= k < c.len(),
    ensures
        sweep_upto(a, b, c, n).len() == n * (b.len() * c.len()),
        0 <= i * (b.len() * c.len()) + (j * c.len() + k) < n * (b.len() * c.len()),
        sweep_upto(a, b, c, n)[i * (b.len() * c.len()) + (j * c.len() + k)] == (SweepPoint {
            ctx: a[i],
            ngl: b[j],
            ubatch: c[k],
        }),
    decreases n,
{
    let m = (b.len() * c.len()) as int;
    lemma_layers(a[n - 1], b, c, b.len() as int, j, k);
    lemma_layers(a[i], b, c, b.len() as int, j, k);
    let at = j * c.len() + k;
    assert(0 <= at < m);
    assert(i * m + at < (i + 1) * m && (i + 1) * m <= n * m && 0 <= i * m) by (nonlinear_arith)
        requires
            0 <= i < n,
            0 <= at < m,
    ;
    assert((n - 1) * m + m == n * m) by (nonlinear_arith);
    if n > 1 {
        lemma_sweep(a, b, c, n - 1, 0, j, k);
        if i < n - 1 {
            lemma_sweep(a, b, c, n - 1, i, j, k);
        }
    } else {
        assert(sweep_upto(a, b, c, 0).len() == 0);
        assert(i * m == 0 && n * m == m && (n - 1) * m == 0) by (nonlinear_arith)
            requires
                n == 1,
                i == 0,
        ;
    }
}

/// A sweep tries every context with every number of layers and every batch:
/// the contexts of the ladder first, and for each the layers in turn, and for
/// each of those the batches.
pub proof fn law_sweep_tries_all(
    p: &Profile,
    q: &AutotuneParams,
    r: Vec<SweepPoint>,
    i: int,
    j: int,
    k: int,
)
    requires
        call_ensures(sweep, (p, q), r),
        0 <= i < p.ctx_ladder@.len() + q.ctx_values@.len(),
        0 <= j < q.ngl_values@.len(),
        0 <= k < q.ubatch_values@.len(),
    ensures
        r@.len() == (p.ctx_ladder@.len() + q.ctx_values@.len()) * (q.ngl_values@.len()
            * q.ubatch_values@.len()),
        ({
            let at = i * (q.ngl_values@.len() * q.ubatch_values@.len()) + (j
                * q.ubatch_values@.len() + k);
            &&& 0 <= at < r@.len()
            &&& r@[at].ctx == if i < p.ctx_ladder@.len() {
                p.ctx_ladder@[i]
            } else {
                q.ctx_values@[i - p.ctx_ladder@.len()]
            }
            &&& r@[at].ngl == q.ngl_values@[j]
            &&& r@[at].ubatch == q.ubatch_values@[k]
        }),
{
    let a = sweep_ctx(*p, *q);
    lemma_sweep(a, q.ngl_values@, q.ubatch_values@, a.len() as int, i, j, k);
}

/// The best trial has the highest score; of equal scores it is the last.
pub proof fn law_best_trial(scores: &Vec<Measure>, r: Option<usize>, i: int)
    requires
        call_ensures(best_trial, (scores,), r),
        0 <= i < scores@.len(),
    ensures
        r is Some,
        r->0 < scores@.len(),
        scores@[i].bits < 0x8000_0000_0000_0000 ==> scores@[r->0 as int].bits
            < 0x8000_0000_0000_0000 && scores@[i].bits <= scores@[r->0 as int].bits,
        scores@[i].bits < 0x8000_0000_0000_0000 && r->0 < i ==> scores@[i].bits
            < scores@[r->0 as int].bits,
        scores@[r->0 as int].bits >= 0x8000_0000_0000_0000 ==> scores@[i].bits
            >= scores@[r->0 as int].bits,
{
    let s = scores@;
    assert(s[i].total_rank() <= s[r->0 as int].total_rank());
    if r->0 < i {
        assert(s[i].total_rank() < s[r->0 as int].total_rank());
    }
}

/// The contexts that a trial tries: the largest, and with two variants also
/// half of it in steps of 2048, at least 2048. A cap lowers both, and the
/// smaller comes first; the same context is tried once.
pub proof fn law_trial_points(max: u32, variants: u32, cap: Option<u32>, r: Vec<u32>, h: int)
    requires
        call_ensures(trial_points, (max, variants, cap), r),
        h % 2048 == 0,
        h >= 0,
        2 * h <= max < 2 * (h + 2048),
    ensures
        ({
            let half = if h >= 2048 {
                h
            } else {
                2048
            };
            let low = |x: int| if cap is Some && cap->0 < x {
                cap->0 as int
            } else {
                x
            };
            let two = variants >= 2 && half < max && low(half) != low(max as int);
            &&& r@.len() == if two {
                2int
            } else {
                1
            }
            &&& !two ==> r@[0] == low(max as int)
            &&& two && cap is None ==> r@[0] == max && r@[1] == half
            &&& two && cap is Some ==> r@[0] == low(half) && r@[1] == low(max as int)
        }),
{
    assert(max / 2 / 2048 * 2048 == h);
    assert(half_ctx(max) == if h >= 2048 {
        h
    } else {
        2048
    });
}

proof fn lemma_loading(ms: Seq<RuntimeManifest>, meta: ModelMeta, n: int)
    requires
        0 <= n <= ms.len(),
    ensures
        forall|k: int|
            0 <= k < loading_upto(ms, meta, n).len() ==> 0 <= #[trigger] loading_upto(
                ms,
                meta,
                n,
            )[k] < n && supports_spec(
                ms[loading_upto(ms, meta, n)[k]],
                meta.format,
                opt_text(meta.arch),
            ),
        forall|i: int|
            0 <= i < n && supports_spec(#[trigger] ms[i], meta.format, opt_text(meta.arch))
                ==> loading_upto(ms, meta, n).contains(i),
    decreases n,
{
    if n > 0 {
        lemma_loading(ms, meta, n - 1);
        let rest = loading_upto(ms, meta, n - 1);
        let all = loading_upto(ms, meta, n);
        assert forall|i: int|
            0 <= i < n && supports_spec(#[trigger] ms[i], meta.format, opt_text(meta.arch)) implies
            all.contains(i) by {
            if i == n - 1 {
                assert(all[rest.len() as int] == i);
            } else {
                assert(rest.contains(i));
                let x = choose|x: int| 0 <= x < rest.len() && rest[x] == i;
                assert(all[x] == i);
            }
        }
    }
}

/// One of the trials is of a point.
pub open spec fn is_tried(ts: Seq<TrialPlan>, m: RuntimeManifest, ctx: u32, port: u16) -> bool {
    exists|i: int|
        0 <= i < ts.len() && (#[trigger] ts[i]).runtime_id@ == m.id@ && ts[i].profile.ctx_size
            == ctx && ts[i].test_port == port
}

proof fn lemma_points(
    at: Seq<int>,
    ms: Seq<RuntimeManifest>,
    meta: ModelMeta,
    vram_mb: u64,
    variants: u32,
    cap: Option<u32>,
    n: int,
    k: int,
    x: int,
) -> (i: int)
    requires
        0 <= k < n <= at.len(),
        0 <= x < points_of(ms[at[k]], ms, meta, vram_mb, variants, cap).len(),
    ensures
        0 <= i < points_upto(at, ms, meta, vram_mb, variants, cap, n).len(),
        points_upto(at, ms, meta, vram_mb, variants, cap, n)[i] == points_of(
            ms[at[k]],
            ms,
            meta,
            vram_mb,
            variants,
            cap,
        )[x],
    decreases n,
{
    let rest = points_upto(at, ms, meta, vram_mb, variants, cap, n - 1);
    if k == n - 1 {
        rest.len() + x
    } else {
        lemma_points(at, ms, meta, vram_mb, variants, cap, n - 1, k, x)
    }
}

proof fn lemma_point_of(
    at: Seq<int>,
    ms: Seq<RuntimeManifest>,
    meta: ModelMeta,
    vram_mb: u64,
    variants: u32,
    cap: Option<u32>,
    n: int,
    i: int,
) -> (k: int)
    requires
        0 <= n <= at.len(),
        0 <= i < points_upto(at, ms, meta, vram_mb, variants, cap, n).len(),
    ensures
        0 <= k < n,
        points_of(ms[at[k]], ms, meta, vram_mb, variants, cap).contains(
            points_upto(at, ms, meta, vram_mb, variants, cap, n)[i],
        ),
    decreases n,
{
    let rest = points_upto(at, ms, meta, vram_mb, variants, cap, n - 1);
    let own = points_of(ms[at[n - 1]], ms, meta, vram_mb, variants, cap);
    if i >= rest.len() {
        assert(points_upto(at, ms, meta, vram_mb, variants, cap, n)[i] == own[i - rest.len()]);
        n - 1
    } else {
        lemma_point_of(at, ms, meta, vram_mb, variants, cap, n - 1, i)
    }
}

/// Without a choice of runtimes, every runtime that can load the artifact and
/// has a context that fits is tried at each of its contexts, on its own test
/// port, with the artifact.
pub proof fn law_every_loading_runtime_is_tried(
    meta: &ModelMeta,
    ms: &Vec<RuntimeManifest>,
    variants: u32,
    cap: Option<u32>,
    vram_mb: u64,
    r: Result<(Vec<TrialPlan>, Vec<(String, String)>), String>,
    i: int,
    cs: Vec<u32>,
    x: int,
)
    requires
        call_ensures(plan_trials, (meta, ms, None, variants, cap, vram_mb), r),
        0 <= i < ms@.len(),
        supports_spec(ms@[i], meta.format, opt_text(meta.arch)),
        target_of(ms@[i].id@, ms@) is Some,
        max_ctx_spec(*meta, (target_of(ms@[i].id@, ms@)->0).offload, vram_mb) is Some,
        call_ensures(
            trial_points,
            (
                (max_ctx_spec(*meta, (target_of(ms@[i].id@, ms@)->0).offload, vram_mb)->0).0 as u32,
                variants,
                cap,
            ),
            cs,
        ),
        0 <= x < cs@.len(),
    ensures
        r is Ok,
        is_tried(
            (r->Ok_0).0@,
            ms@[i],
            cs@[x],
            (target_of(ms@[i].id@, ms@)->0).test_port,
        ),
{
    let at = loading_upto(ms@, *meta, ms@.len() as int);
    lemma_loading(ms@, *meta, ms@.len() as int);
    assert(at.contains(i));
    let k = choose|k: int| 0 <= k < at.len() && at[k] == i;
    let own = points_of(ms@[i], ms@, *meta, vram_mb, variants, cap);
    assert(own.len() == cs@.len());
    let y = lemma_points(at, ms@, *meta, vram_mb, variants, cap, at.len() as int, k, x);
    let t = (r->Ok_0).0@[y];
    let pts = points_upto(at, ms@, *meta, vram_mb, variants, cap, at.len() as int);
    assert(crate::engines::discover::is_plan(t, pts[y], *meta));
    assert(t.runtime_id@ == ms@[i].id@);
}

/// What is tried is the artifact, by a runtime that can load it.
pub proof fn law_trials_are_of_the_artifact(
    meta: &ModelMeta,
    ms: &Vec<RuntimeManifest>,
    variants: u32,
    cap: Option<u32>,
    vram_mb: u64,
    r: Result<(Vec<TrialPlan>, Vec<(String, String)>), String>,
    i: int,
)
    requires
        call_ensures(plan_trials, (meta, ms, None, variants, cap, vram_mb), r),
        r is Ok,
        0 <= i < (r->Ok_0).0@.len(),
    ensures
        (r->Ok_0).0@[i].profile.model@ == meta.path@,
        (r->Ok_0).0@[i].profile.alias@ == meta.name@,
        exists|k: int|
            0 <= k < ms@.len() && supports_spec(#[trigger] ms@[k], meta.format, opt_text(meta.arch))
                && (r->Ok_0).0@[i].runtime_id@ == ms@[k].id@ && (r->Ok_0).0@[i].display@
                == ms@[k].display@,
        cap is Some ==> (r->Ok_0).0@[i].profile.ctx_size <= cap->0,
{
    let at = loading_upto(ms@, *meta, ms@.len() as int);
    lemma_loading(ms@, *meta, ms@.len() as int);
    let pts = points_upto(at, ms@, *meta, vram_mb, variants, cap, at.len() as int);
    let t = (r->Ok_0).0@[i];
    assert(crate::engines::discover::is_plan(t, pts[i], *meta));
    let k = lemma_point_of(at, ms@, *meta, vram_mb, variants, cap, at.len() as int, i);
    assert(supports_spec(ms@[at[k]], meta.format, opt_text(meta.arch)));
}

/// Where nothing can load the artifact there is nothing to try.
pub proof fn law_nothing_to_try(
    meta: &ModelMeta,
    ms: &Vec<RuntimeManifest>,
    variants: u32,
    cap: Option<u32>,
    vram_mb: u64,
    r: Result<(Vec<TrialPlan>, Vec<(String, String)>), String>,
)
    requires
        call_ensures(plan_trials, (meta, ms, None, variants, cap, vram_mb), r),
    ensures
        r is Err <==> forall|k: int|
            0 <= k < ms@.len() ==> !supports_spec(
                #[trigger] ms@[k],
                meta.format,
                opt_text(meta.arch),
            ),
{
    let at = loading_upto(ms@, *meta, ms@.len() as int);
    lemma_loading(ms@, *meta, ms@.len() as int);
    if at.len() > 0 {
        assert(supports_spec(ms@[at[0]], meta.format, opt_text(meta.arch)));
    }
}

proof fn lemma_fastest(ss: Seq<GenSample>, n: int)
    requires
        0 <= n <= ss.len(),
        forall|k: int|
            0 <= k < ss.len() && (#[trigger] ss[k]).tok_s is Some ==> (ss[k].tok_s->0).bits
                <= 0x7ff0_0000_0000_0000,
    ensures
        match fastest_upto(ss, n) {
            None => forall|k: int| 0 <= k < n ==> (#[trigger] ss[k]).tok_s is None,
            Some(b) => {
                &&& 0 <= b < n
                &&& ss[b].tok_s is Some
                &&& forall|k: int|
                    0 <= k < n && (#[trigger] ss[k]).tok_s is Some ==> (ss[k].tok_s->0).bits <= (
                    ss[b].tok_s->0).bits
                &&& forall|k: int|
                    0 <= k < b && (#[trigger] ss[k]).tok_s is Some ==> (ss[k].tok_s->0).bits < (
                    ss[b].tok_s->0).bits
            },
        },
    decreases n,
{
    if n > 0 {
        lemma_fastest(ss, n - 1);
        assert(ss[n - 1].tok_s is Some ==> (ss[n - 1].tok_s->0).bits <= 0x7ff0_0000_0000_0000);
    }
}

/// A trial that was measured reports the speed of its fastest sample, the
/// first of equals, with that sample's kind and prompt speed.
pub proof fn law_fastest_sample_counts(
    plan: &TrialPlan,
    ss: &Vec<GenSample>,
    ats: &Vec<i64>,
    native: &Option<String>,
    version: &Option<String>,
    r: TrialResult,
    k: int,
)
    requires
        call_ensures(trial_measured, (plan, ss, ats, native, version), r),
        forall|k: int|
            0 <= k < ss@.len() && (#[trigger] ss@[k]).tok_s is Some ==> (ss@[k].tok_s->0).bits
                <= 0x7ff0_0000_0000_0000,
        0 <= k < ss@.len(),
    ensures
        ss@[k].tok_s is Some ==> r.best_tps is Some && (ss@[k].tok_s->0).bits <= (
        r.best_tps->0).bits,
        ss@[k].tok_s is Some && (ss@[k].tok_s->0).bits == (r.best_tps->0).bits && (forall|j: int|
            0 <= j < k && (#[trigger] ss@[j]).tok_s is Some ==> (ss@[j].tok_s->0).bits < (
            ss@[k].tok_s->0).bits) ==> opt_text(r.best_kind) == Some(ss@[k].tok_s_kind@)
            && r.prompt_tps == ss@[k].prompt_tps,
        r.best_tps is Some ==> exists|j: int|
            0 <= j < ss@.len() && (#[trigger] ss@[j]).tok_s == r.best_tps,
        r.boot_verdict@ == "RUNNING"@,
        r.ctx == plan.profile.ctx_size,
        r.runtime_id@ == plan.runtime_id@,
{
    lemma_fastest(ss@, ss@.len() as int);
    let b = fastest_upto(ss@, ss@.len() as int);
    if b is Some && ss@[k].tok_s is Some && (ss@[k].tok_s->0).bits == (r.best_tps->0).bits && (
    forall|j: int|
        0 <= j < k && (#[trigger] ss@[j]).tok_s is Some ==> (ss@[j].tok_s->0).bits < (
        ss@[k].tok_s->0).bits) {
        if b->0 < k {
            assert(ss@[b->0].tok_s is Some);
        }
        assert(b->0 == k);
    }
}

/// Each sample of a trial has its record.
pub proof fn law_record_of_a_sample(
    plan: &TrialPlan,
    ss: &Vec<GenSample>,
    ats: &Vec<i64>,
    native: &Option<String>,
    version: &Option<String>,
    r: TrialResult,
    i: int,
)
    requires
        call_ensures(trial_measured, (plan, ss, ats, native, version), r),
        0 <= i < ss@.len() <= u32::MAX,
    ensures
        r.rows@.len() == ss@.len(),
        r.rows@[i].engine@ == plan.runtime_id@,
        r.rows@[i].model@ == plan.profile.model@,
        r.rows@[i].ctx == plan.profile.ctx_size,
        r.rows@[i].task@ == "discovery-probe"@,
        r.rows@[i].run == i,
        r.rows@[i].verdict@ == if ss@[i].ok {
            "RUNNING"@
        } else {
            "ERROR"@
        },
        r.rows@[i].gen_tokens == ss@[i].gen_tokens,
        r.rows@[i].prompt_tokens == ss@[i].prompt_tokens,
        r.rows@[i].tok_s == ss@[i].tok_s,
        r.rows@[i].tok_s_kind@ == ss@[i].tok_s_kind@,
        r.rows@[i].wall_ms == ss@[i].wall_ms,
        r.rows@[i].output@ == ss@[i].text@,
        r.rows@[i].at == ats@[i],
        opt_text(r.rows@[i].engine_version) == opt_text(*version),
        r.rows@[i].prompt_tps == ss@[i].prompt_tps,
        r.rows@[i].ttft_ms == ss@[i].ttft_ms,
        ss@[i].error is Some ==> r.rows@[i].summary@ == (ss@[i].error->0)@,
        ss@[i].error is None ==> r.rows@[i].summary@.len() == 0,
{
    assert(r.rows@[i]@ == crate::engines::discover::probe_row(
        *plan,
        ss@[i],
        i as u32,
        opt_text(*version),
        ats@[i],
    ));
    let v = r.rows@[i]@;
    assert(v.engine == r.rows@[i].engine@ && v.tok_s == r.rows@[i].tok_s);
}

/// A trial served: it ran, and was measured at more than nothing.
pub open spec fn has_served(t: TrialResult) -> bool {
    t.boot_verdict@ == "RUNNING"@ && t.best_tps is Some && 0 < (t.best_tps->0).bits
        <= 0x7ff0_0000_0000_0000
}

proof fn lemma_best(rs: Seq<TrialResult>, n: int)
    requires
        0 <= n <= rs.len(),
    ensures
        match best_upto(rs, n) {
            None => forall|k: int| 0 <= k < n ==> !has_served(#[trigger] rs[k]),
            Some(b) => {
                &&& 0 <= b < n
                &&& has_served(rs[b])
                &&& forall|k: int|
                    0 <= k < n && has_served(#[trigger] rs[k]) ==> (rs[k].best_tps->0).bits <= (
                    rs[b].best_tps->0).bits
                &&& forall|k: int|
                    b < k < n && has_served(#[trigger] rs[k]) ==> (rs[k].best_tps->0).bits < (
                    rs[b].best_tps->0).bits
            },
        },
    decreases n,
{
    if n > 0 {
        lemma_best(rs, n - 1);
        assert(served(rs[n - 1]) == has_served(rs[n - 1]));
    }
}

/// How many of the first `n` trials served.
pub open spec fn count_served(rs: Seq<TrialResult>, n: int) -> nat
    decreases n,
{
    if n <= 0 {
        0
    } else if has_served(rs[n - 1]) {
        count_served(rs, n - 1) + 1
    } else {
        count_served(rs, n - 1)
    }
}

proof fn lemma_count(rs: Seq<TrialResult>, n: int)
    requires
        0 <= n <= rs.len(),
    ensures
        count_served(rs, n) == served_upto(rs, n),
    decreases n,
{
    if n > 0 {
        lemma_count(rs, n - 1);
        assert(served(rs[n - 1]) == has_served(rs[n - 1]));
    }
}

/// A discovery names the runtime that served fastest, the last of equals; it
/// counts the trials that served.
pub proof fn law_best_runtime(
    model: &str,
    rs: &Vec<TrialResult>,
    skipped: &Vec<(String, String)>,
    ids: &Vec<i64>,
    r: DiscoveryReport,
    b: int,
)
    requires
        call_ensures(summarize, (model, rs, skipped, ids), r),
    ensures
        0 <= b < rs@.len() && has_served(rs@[b]) && (forall|k: int|
            0 <= k < rs@.len() && has_served(#[trigger] rs@[k]) ==> (rs@[k].best_tps->0).bits <= (
            rs@[b].best_tps->0).bits) && (forall|k: int|
            b < k < rs@.len() && has_served(#[trigger] rs@[k]) ==> (rs@[k].best_tps->0).bits < (
            rs@[b].best_tps->0).bits) ==> opt_text(r.best) == Some(rs@[b].runtime_id@) && r.summary@
            == "discovery: "@ + decimal(count_served(rs@, rs@.len() as int)) + "/"@ + decimal(
            rs@.len(),
        ) + " trial(s) served"@ + (" — best measured: "@ + rs@[b].runtime_id@),
        (forall|k: int| 0 <= k < rs@.len() ==> !has_served(#[trigger] rs@[k])) ==> r.best is None,
        forall|k: int|
            0 <= k < rs@.len() ==> (#[trigger] r.trials@[k]).ok == has_served(rs@[k])
                && r.trials@[k].tps == rs@[k].best_tps && r.trials@[k].runtime_id@
                == rs@[k].runtime_id@ && r.trials@[k].ctx == rs@[k].ctx
                && r.trials@[k].boot_verdict@ == rs@[k].boot_verdict@,
        r.trials@.len() == rs@.len(),
{
    lemma_best(rs@, rs@.len() as int);
    lemma_count(rs@, rs@.len() as int);
    let c = best_upto(rs@, rs@.len() as int);
    if 0 <= b < rs@.len() && has_served(rs@[b]) && (forall|k: int|
        0 <= k < rs@.len() && has_served(#[trigger] rs@[k]) ==> (rs@[k].best_tps->0).bits <= (
        rs@[b].best_tps->0).bits) && (forall|k: int|
        b < k < rs@.len() && has_served(#[trigger] rs@[k]) ==> (rs@[k].best_tps->0).bits < (
        rs@[b].best_tps->0).bits) {
        assert(c is Some);
        assert(has_served(rs@[c->0]));
        if c->0 > b {
            assert((rs@[c->0].best_tps->0).bits < (rs@[b].best_tps->0).bits);
        }
        assert(c->0 == b);
    }
    assert forall|k: int| 0 <= k < rs@.len() implies (#[trigger] r.trials@[k]).ok == has_served(
        rs@[k],
    ) && r.trials@[k].tps == rs@[k].best_tps && r.trials@[k].runtime_id@ == rs@[k].runtime_id@
        && r.trials@[k].ctx == rs@[k].ctx && r.trials@[k].boot_verdict@ == rs@[k].boot_verdict@ by {
        assert(crate::engines::discover::is_summary(r.trials@[k], rs@[k]));
    }
}

} // verus!
