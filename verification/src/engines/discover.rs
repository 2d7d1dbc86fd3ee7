//! Configuration discovery: turns fit estimates into measured facts.
//!
//! For one artifact the planner lists (runtime × context) configurations. Each
//! is booted on its test port and probed; this module lists the
//! configurations, and makes the records and the ranking of what was measured.
use vstd::prelude::*;
use vstd::string::StringExecFns;

use crate::engines::inference::GenSample;
use crate::engines::unit::{bound_manifest, manifest_for};
use crate::fitplan::{
    find_manifest, launches, manifest_with_id, max_ctx_spec, no_fit_error, plan_for_runtime,
    target_of, unknown_runtime_error, DerivedLoadout, Target,
};
use crate::measure::Measure;
use crate::model::ModelMeta;
use crate::params::pair_texts;
use crate::profile::{
    engine_protocol, engine_with_id, profile_runtime, Engine, EngineProtocol, Profile,
};
use crate::runtime::{supports_spec, ProtocolSer, RuntimeManifest};
use crate::store::bench::{row_views, MatrixRow, RowView};
use crate::text::{clone_opt, decimal, decimal_of, opt_text, owned, same, texts};

verus! {

/// The task under which probes are recorded.
pub const PROBE_TASK: &'static str = "discovery-probe";

/// The smallest context that is tried.
pub const MIN_CTX: u32 = 2048;

/// One configuration to be measured.
#[derive(Debug, Clone, PartialEq)]
pub struct TrialPlan {
    pub runtime_id: String,
    pub display: String,
    pub test_port: u16,
    pub profile: Profile,
    pub label: String,
}

/// Half of a context, down to a multiple of the smallest, which it is at least.
pub open spec fn half_ctx(max: u32) -> u32 {
    let h = (max / 2 / 2048 * 2048) as u32;
    if h >= MIN_CTX {
        h
    } else {
        MIN_CTX
    }
}

/// A context capped.
pub open spec fn capped_ctx(c: u32, cap: u32) -> u32 {
    if c <= cap {
        c
    } else {
        cap
    }
}

/// The contexts to be tried: the largest, and with two variants half of it;
/// under a cap in ascending order, without repeats.
pub open spec fn ctx_points(max: u32, variants: u32, cap: Option<u32>) -> Seq<u32> {
    let half = half_ctx(max);
    let two = variants >= 2 && half < max;
    match cap {
        None => if two {
            seq![max, half]
        } else {
            seq![max]
        },
        Some(c) => {
            let a = capped_ctx(max, c);
            let b = capped_ctx(half, c);
            if two && b != a {
                seq![b, a]
            } else {
                seq![a]
            }
        },
    }
}

/// The contexts to be tried.
pub fn trial_points(max: u32, variants: u32, cap: Option<u32>) -> (r: Vec<u32>)
    ensures
        r@ == ctx_points(max, variants, cap),
{
    let h: u32 = max / 2 / 2048 * 2048;
    let half: u32 = if h >= MIN_CTX {
        h
    } else {
        MIN_CTX
    };
    let two = variants >= 2 && half < max;
    let mut r: Vec<u32> = Vec::new();
    match cap {
        None => {
            r.push(max);
            if two {
                r.push(half);
            }
        },
        Some(c) => {
            let a = cap_ctx(max, c);
            let b = cap_ctx(half, c);
            if two && b != a {
                r.push(b);
            }
            r.push(a);
        },
    }
    assert(r@ =~= ctx_points(max, variants, cap));
    r
}

fn cap_ctx(c: u32, cap: u32) -> (r: u32)
    ensures
        r == capped_ctx(c, cap),
{
    if c <= cap {
        c
    } else {
        cap
    }
}

/// Under a cap no context is above it, and the contexts ascend without repeats.
pub proof fn law_capped_points(max: u32, variants: u32, cap: u32, i: int)
    requires
        0 <= i < ctx_points(max, variants, Some(cap)).len(),
    ensures
        ctx_points(max, variants, Some(cap))[i] <= cap,
        i > 0 ==> ctx_points(max, variants, Some(cap))[i - 1] < ctx_points(
            max,
            variants,
            Some(cap),
        )[i],
{
}

/// The manifests that were asked for, and the ids that name none: among the
/// first `n` ids.
pub open spec fn named_upto(ms: Seq<RuntimeManifest>, ids: Seq<Seq<char>>, n: int) -> (
    Seq<int>,
    Seq<(Seq<char>, Seq<char>)>,
)
    decreases n,
{
    if n <= 0 {
        (Seq::empty(), Seq::empty())
    } else {
        let (at, skipped) = named_upto(ms, ids, n - 1);
        match manifest_with_id(ms, ids[n - 1]) {
            Some(i) => (at.push(i), skipped),
            None => (at, skipped.push((ids[n - 1], "unknown runtime id"@))),
        }
    }
}

/// The manifests that can load the artifact, among the first `n`.
pub open spec fn loading_upto(ms: Seq<RuntimeManifest>, meta: ModelMeta, n: int) -> Seq<int>
    decreases n,
{
    if n <= 0 {
        Seq::empty()
    } else {
        let rest = loading_upto(ms, meta, n - 1);
        if supports_spec(ms[n - 1], meta.format, opt_text(meta.arch)) {
            rest.push(n - 1)
        } else {
            rest
        }
    }
}

/// The manifests to be tried, and the ids that name none.
pub open spec fn selection(
    ms: Seq<RuntimeManifest>,
    meta: ModelMeta,
    ids: Option<Seq<Seq<char>>>,
) -> (Seq<int>, Seq<(Seq<char>, Seq<char>)>) {
    match ids {
        Some(v) => named_upto(ms, v, v.len() as int),
        None => (loading_upto(ms, meta, ms.len() as int), Seq::empty()),
    }
}

/// What is planned: a manifest, what its id resolves to, and a context.
pub struct Point {
    pub manifest: RuntimeManifest,
    pub target: Target,
    pub ctx: u32,
}

/// The points of one manifest.
pub open spec fn points_of(
    m: RuntimeManifest,
    ms: Seq<RuntimeManifest>,
    meta: ModelMeta,
    vram_mb: u64,
    variants: u32,
    cap: Option<u32>,
) -> Seq<Point> {
    match target_of(m.id@, ms) {
        Some(t) => match max_ctx_spec(meta, t.offload, vram_mb) {
            Some((ctx, _)) => {
                let cs = ctx_points(ctx as u32, variants, cap);
                Seq::new(cs.len(), |k: int| Point { manifest: m, target: t, ctx: cs[k] })
            },
            None => Seq::empty(),
        },
        None => Seq::empty(),
    }
}

/// Why a manifest has no points.
pub open spec fn skip_of(
    m: RuntimeManifest,
    ms: Seq<RuntimeManifest>,
    meta: ModelMeta,
    vram_mb: u64,
) -> Seq<(Seq<char>, Seq<char>)> {
    match target_of(m.id@, ms) {
        Some(t) => match max_ctx_spec(meta, t.offload, vram_mb) {
            Some(_) => Seq::empty(),
            None => seq![(m.id@, no_fit_error(m.id@))],
        },
        None => seq![(m.id@, unknown_runtime_error(m.id@))],
    }
}

/// The points of the first `n` selected manifests.
pub open spec fn points_upto(
    at: Seq<int>,
    ms: Seq<RuntimeManifest>,
    meta: ModelMeta,
    vram_mb: u64,
    variants: u32,
    cap: Option<u32>,
    n: int,
) -> Seq<Point>
    decreases n,
{
    if n <= 0 {
        Seq::empty()
    } else {
        points_upto(at, ms, meta, vram_mb, variants, cap, n - 1) + points_of(
            ms[at[n - 1]],
            ms,
            meta,
            vram_mb,
            variants,
            cap,
        )
    }
}

/// What was skipped of the first `n` selected manifests.
pub open spec fn skips_upto(
    at: Seq<int>,
    ms: Seq<RuntimeManifest>,
    meta: ModelMeta,
    vram_mb: u64,
    n: int,
) -> Seq<(Seq<char>, Seq<char>)>
    decreases n,
{
    if n <= 0 {
        Seq::empty()
    } else {
        skips_upto(at, ms, meta, vram_mb, n - 1) + skip_of(ms[at[n - 1]], ms, meta, vram_mb)
    }
}

/// The name of a trial's profile.
pub open spec fn trial_name(id: Seq<char>, ctx: u32) -> Seq<char> {
    "discover-"@ + id + "-"@ + decimal(ctx as nat)
}

/// The plan is that of a point.
pub open spec fn is_plan(t: TrialPlan, pt: Point, meta: ModelMeta) -> bool {
    &&& t.runtime_id@ == pt.manifest.id@
    &&& t.display@ == pt.manifest.display@
    &&& t.test_port == pt.target.test_port
    &&& t.label@ == pt.manifest.display@ + " @ ctx "@ + decimal(pt.ctx as nat)
    &&& t.profile.name@ == trial_name(pt.manifest.id@, pt.ctx)
    &&& launches(
        t.profile,
        meta,
        pt.target.engine,
        pt.target.runtime_id,
        pt.target.port,
        pt.ctx as u64,
    )
}

/// The plans are those of the points.
pub open spec fn are_plans(ts: Seq<TrialPlan>, pts: Seq<Point>, meta: ModelMeta) -> bool {
    ts.len() == pts.len() && forall|i: int|
        0 <= i < ts.len() ==> is_plan(#[trigger] ts[i], pts[i], meta)
}

/// Where nothing can be tried.
pub const NO_RUNTIME_ERROR: &'static str = "no compatible runtime for this artifact (see skipped)";

fn select(
    ms: &Vec<RuntimeManifest>,
    meta: &ModelMeta,
    ids: Option<&Vec<String>>,
    skipped: &mut Vec<(String, String)>,
) -> (at: Vec<usize>)
    requires
        old(skipped)@.len() == 0,
    ensures
        ({
            let (want, skips) = selection(ms@, *meta, opt_texts(ids));
            &&& at@.len() == want.len()
            &&& forall|i: int| 0 <= i < at@.len() ==> #[trigger] at@[i] == want[i] && at@[i] < ms@.len()
            &&& pair_texts(final(skipped)@) == skips
        }),
{
    let mut at: Vec<usize> = Vec::new();
    assert(pair_texts(skipped@) =~= Seq::<(Seq<char>, Seq<char>)>::empty());
    match ids {
        Some(v) => {
            let ghost want = texts(v@);
            let mut k: usize = 0;
            while k < v.len()
                invariant
                    want == texts(v@),
                    k <= v@.len(),
                    at@.len() == named_upto(ms@, want, k as int).0.len(),
                    forall|i: int|
                        0 <= i < at@.len() ==> #[trigger] at@[i] == named_upto(
                            ms@,
                            want,
                            k as int,
                        ).0[i] && at@[i] < ms@.len(),
                    pair_texts(skipped@) == named_upto(ms@, want, k as int).1,
                decreases v@.len() - k,
            {
                let ghost before = pair_texts(skipped@);
                assert(want[k as int] == v@[k as int]@);
                match find_manifest(ms, v[k].as_str()) {
                    Some(i) => {
                        at.push(i);
                    },
                    None => {
                        skipped.push((owned(v[k].as_str()), owned("unknown runtime id")));
                        assert(pair_texts(skipped@) =~= before.push(
                            (want[k as int], "unknown runtime id"@),
                        ));
                    },
                }
                k = k + 1;
            }
        },
        None => {
            let arch: Option<&str> = match &meta.arch {
                Some(a) => Some(a.as_str()),
                None => None,
            };
            let mut k: usize = 0;
            while k < ms.len()
                invariant
                    opt_text(meta.arch) == crate::text::opt_str(arch),
                    k <= ms@.len(),
                    at@.len() == loading_upto(ms@, *meta, k as int).len(),
                    forall|i: int|
                        0 <= i < at@.len() ==> #[trigger] at@[i] == loading_upto(
                            ms@,
                            *meta,
                            k as int,
                        )[i] && at@[i] < ms@.len(),
                    pair_texts(skipped@) == Seq::<(Seq<char>, Seq<char>)>::empty(),
                decreases ms@.len() - k,
            {
                if ms[k].supports(&meta.format, arch) {
                    at.push(k);
                }
                k = k + 1;
            }
        },
    }
    at
}

/// The views of an optional list of strings.
pub open spec fn opt_texts(v: Option<&Vec<String>>) -> Option<Seq<Seq<char>>> {
    match v {
        Some(v) => Some(texts(v@)),
        None => None,
    }
}

fn build_plan(m: &RuntimeManifest, d: &DerivedLoadout, test_port: u16, ctx: u32, Ghost(pt): Ghost<
    Point,
>, Ghost(meta): Ghost<ModelMeta>) -> (t: TrialPlan)
    requires
        pt.manifest == *m,
        pt.ctx == ctx,
        pt.target.test_port == test_port,
        launches(
            d.profile,
            meta,
            pt.target.engine,
            pt.target.runtime_id,
            pt.target.port,
            d.profile.ctx_size as u64,
        ),
    ensures
        is_plan(t, pt, meta),
{
    let mut profile = d.profile.at_ctx(ctx);
    let mut name = owned("discover-");
    name.append(m.id.as_str());
    name.append("-");
    name.append(decimal_of(ctx as u64).as_str());
    profile.name = name;
    let mut label = owned(m.display.as_str());
    label.append(" @ ctx ");
    label.append(decimal_of(ctx as u64).as_str());
    TrialPlan {
        runtime_id: owned(m.id.as_str()),
        display: owned(m.display.as_str()),
        test_port,
        profile,
        label,
    }
}

/// Lists the configurations to be measured, and what was skipped. `runtimes`
/// names the backends; `None` stands for every one that can load the artifact.
pub fn plan_trials(
    meta: &ModelMeta,
    manifests: &Vec<RuntimeManifest>,
    runtimes: Option<&Vec<String>>,
    variants: u32,
    ctx_cap: Option<u32>,
    vram_mb: u64,
) -> (r: Result<(Vec<TrialPlan>, Vec<(String, String)>), String>)
    ensures
        ({
            let (at, skips) = selection(manifests@, *meta, opt_texts(runtimes));
            match r {
                Ok((plans, skipped)) => {
                    &&& at.len() > 0
                    &&& are_plans(
                        plans@,
                        points_upto(
                            at,
                            manifests@,
                            *meta,
                            vram_mb,
                            variants,
                            ctx_cap,
                            at.len() as int,
                        ),
                        *meta,
                    )
                    &&& pair_texts(skipped@) == skips + skips_upto(
                        at,
                        manifests@,
                        *meta,
                        vram_mb,
                        at.len() as int,
                    )
                },
                Err(e) => at.len() == 0 && e@ == NO_RUNTIME_ERROR@,
            }
        }),
{
    let mut skipped: Vec<(String, String)> = Vec::new();
    let at = select(manifests, meta, runtimes, &mut skipped);
    let ghost (want, skips) = selection(manifests@, *meta, opt_texts(runtimes));
    if at.len() == 0 {
        return Err(owned(NO_RUNTIME_ERROR));
    }
    let mut plans: Vec<TrialPlan> = Vec::new();
    let mut i: usize = 0;
    assert(skips + skips_upto(want, manifests@, *meta, vram_mb, 0) =~= skips);
    while i < at.len()
        invariant
            at@.len() == want.len(),
            forall|j: int|
                0 <= j < at@.len() ==> #[trigger] at@[j] == want[j] && at@[j] < manifests@.len(),
            i <= at@.len(),
            are_plans(
                plans@,
                points_upto(want, manifests@, *meta, vram_mb, variants, ctx_cap, i as int),
                *meta,
            ),
            pair_texts(skipped@) == skips + skips_upto(
                want,
                manifests@,
                *meta,
                vram_mb,
                i as int,
            ),
        decreases at@.len() - i,
    {
        let k = at[i];
        assert(at@[i as int] < manifests@.len());
        let m = &manifests[k];
        let ghost done = points_upto(want, manifests@, *meta, vram_mb, variants, ctx_cap, i as int);
        let ghost mine = points_of(*m, manifests@, *meta, vram_mb, variants, ctx_cap);
        let ghost before = pair_texts(skipped@);
        let ghost skipped_here = skip_of(*m, manifests@, *meta, vram_mb);
        match plan_for_runtime(meta, m.id.as_str(), manifests, vram_mb) {
            Ok((d, test_port)) => {
                let points = trial_points(d.max_ctx, variants, ctx_cap);
                let mut j: usize = 0;
                assert(mine.len() == points@.len());
                assert(skipped_here =~= Seq::<(Seq<char>, Seq<char>)>::empty());
                while j < points.len()
                    invariant
                        j <= points@.len(),
                        mine.len() == points@.len(),
                        target_of(m.id@, manifests@) is Some,
                        test_port == (target_of(m.id@, manifests@)->0).test_port,
                        launches(
                            d.profile,
                            *meta,
                            (target_of(m.id@, manifests@)->0).engine,
                            (target_of(m.id@, manifests@)->0).runtime_id,
                            (target_of(m.id@, manifests@)->0).port,
                            d.profile.ctx_size as u64,
                        ),
                        forall|q: int|
                            0 <= q < mine.len() ==> #[trigger] mine[q] == (Point {
                                manifest: *m,
                                target: target_of(m.id@, manifests@)->0,
                                ctx: points@[q],
                            }),
                        are_plans(plans@, done + mine.take(j as int), *meta),
                    decreases points@.len() - j,
                {
                    let ghost pts = done + mine.take(j as int);
                    let t = build_plan(
                        m,
                        &d,
                        test_port,
                        points[j],
                        Ghost(mine[j as int]),
                        Ghost(*meta),
                    );
                    plans.push(t);
                    assert(done + mine.take(j + 1) =~= pts.push(mine[j as int]));
                    j = j + 1;
                }
                assert(mine.take(j as int) =~= mine);
                assert(before + skipped_here =~= before);
            },
            Err(e) => {
                assert(mine =~= Seq::<Point>::empty());
                assert(done + mine =~= done);
                skipped.push((owned(m.id.as_str()), e));
                assert(pair_texts(skipped@) =~= before.push((m.id@, e@)));
                assert(before.push((m.id@, e@)) =~= before + skipped_here);
            },
        }
        proof {
            let a = skips_upto(want, manifests@, *meta, vram_mb, i as int);
            assert(skips + (a + skipped_here) =~= (skips + a) + skipped_here);
        }
        i = i + 1;
    }
    Ok((plans, skipped))
}


/// The protocol of a profile's runtime.
pub open spec fn protocol_of(p: Profile, ms: Seq<RuntimeManifest>) -> EngineProtocol {
    match bound_manifest(p, ms) {
        Some(m) => match m.protocol {
            ProtocolSer::OpenAiChat => EngineProtocol::OpenAiChat,
            ProtocolSer::OllamaChat => EngineProtocol::OllamaChat,
        },
        None => match engine_with_id(profile_runtime(p)) {
            Some(e) => engine_protocol(e),
            None => EngineProtocol::OpenAiChat,
        },
    }
}

/// The protocol of a profile's runtime.
pub fn protocol_for(p: &Profile, manifests: &Vec<RuntimeManifest>) -> (r: EngineProtocol)
    ensures
        r == protocol_of(*p, manifests@),
{
    match manifest_for(p, manifests) {
        Some(m) => m.protocol(),
        None => match Engine::parse(p.runtime_key().as_str()) {
            Some(e) => e.protocol(),
            None => EngineProtocol::OpenAiChat,
        },
    }
}

/// A plan with the machine's own binary, where one is configured.
pub fn apply_engine_bin(plan: TrialPlan, bin: Option<String>) -> (r: TrialPlan)
    ensures
        r.profile.bin@ == match opt_text(bin) {
            Some(b) => b,
            None => plan.profile.bin@,
        },
        r == (TrialPlan { profile: Profile { bin: r.profile.bin, ..plan.profile }, ..plan }),
{
    let mut r = plan;
    match bin {
        Some(b) => {
            r.profile.bin = b;
        },
        None => {},
    }
    r
}

/// One measured configuration.
#[derive(Debug, Clone, PartialEq)]
pub struct TrialResult {
    pub runtime_id: String,
    pub display: String,
    pub ctx: u32,
    pub boot_verdict: String,
    pub boot_summary: String,
    pub rows: Vec<MatrixRow>,
    pub best_tps: Option<Measure>,
    pub best_kind: Option<String>,
    pub prompt_tps: Option<Measure>,
}

/// The record of a configuration that did not boot.
pub open spec fn boot_row(plan: TrialPlan, verdict: Seq<char>, summary: Seq<char>, at: i64) -> RowView {
    RowView {
        engine: plan.runtime_id@,
        model: plan.profile.model@,
        ctx: plan.profile.ctx_size,
        task: PROBE_TASK@,
        run: 0,
        verdict,
        summary,
        gen_tokens: None,
        prompt_tokens: None,
        tok_s: None,
        tok_s_kind: "wall"@,
        wall_ms: 0,
        output: Seq::empty(),
        at,
        workload_id: None,
        hardware_profile_id: None,
        engine_version: None,
        prompt_tps: None,
        ttft_ms: None,
        peak_vram_mb: None,
        model_rev: None,
        sampling_json: None,
        role_id: None,
        workflow_id: None,
    }
}

/// What a sample's verdict is.
pub open spec fn sample_verdict(s: GenSample) -> Seq<char> {
    if s.ok {
        "RUNNING"@
    } else {
        "ERROR"@
    }
}

/// A text, or the empty one.
pub open spec fn text_or_empty(o: Option<Seq<char>>) -> Seq<char> {
    match o {
        Some(s) => s,
        None => Seq::empty(),
    }
}

/// The record of a sample.
pub open spec fn probe_row(
    plan: TrialPlan,
    s: GenSample,
    run: u32,
    version: Option<Seq<char>>,
    at: i64,
) -> RowView {
    RowView {
        engine: plan.runtime_id@,
        model: plan.profile.model@,
        ctx: plan.profile.ctx_size,
        task: PROBE_TASK@,
        run,
        verdict: sample_verdict(s),
        summary: text_or_empty(opt_text(s.error)),
        gen_tokens: s.gen_tokens,
        prompt_tokens: s.prompt_tokens,
        tok_s: s.tok_s,
        tok_s_kind: s.tok_s_kind@,
        wall_ms: s.wall_ms,
        output: s.text@,
        at,
        workload_id: None,
        hardware_profile_id: None,
        engine_version: version,
        prompt_tps: s.prompt_tps,
        ttft_ms: s.ttft_ms,
        peak_vram_mb: None,
        model_rev: None,
        sampling_json: None,
        role_id: None,
        workflow_id: None,
    }
}

/// The text of an optional error, or the empty one.
pub fn error_text(e: &Option<String>) -> (r: String)
    ensures
        r@ == text_or_empty(opt_text(*e)),
{
    match e {
        Some(s) => owned(s.as_str()),
        None => String::new(),
    }
}

fn build_boot_row(plan: &TrialPlan, verdict: &str, summary: &str, at: i64) -> (r: MatrixRow)
    ensures
        r@ == boot_row(*plan, verdict@, summary@, at),
{
    MatrixRow {
        engine: owned(plan.runtime_id.as_str()),
        model: owned(plan.profile.model.as_str()),
        ctx: plan.profile.ctx_size,
        task: owned(PROBE_TASK),
        run: 0,
        verdict: owned(verdict),
        summary: owned(summary),
        gen_tokens: None,
        prompt_tokens: None,
        tok_s: None,
        tok_s_kind: owned("wall"),
        wall_ms: 0,
        output: String::new(),
        at,
        workload_id: None,
        hardware_profile_id: None,
        engine_version: None,
        prompt_tps: None,
        ttft_ms: None,
        peak_vram_mb: None,
        model_rev: None,
        sampling_json: None,
        role_id: None,
        workflow_id: None,
    }
}

fn build_probe_row(
    plan: &TrialPlan,
    s: &GenSample,
    run: u32,
    version: &Option<String>,
    at: i64,
) -> (r: MatrixRow)
    ensures
        r@ == probe_row(*plan, *s, run, opt_text(*version), at),
{
    MatrixRow {
        engine: owned(plan.runtime_id.as_str()),
        model: owned(plan.profile.model.as_str()),
        ctx: plan.profile.ctx_size,
        task: owned(PROBE_TASK),
        run,
        verdict: if s.ok {
            owned("RUNNING")
        } else {
            owned("ERROR")
        },
        summary: error_text(&s.error),
        gen_tokens: s.gen_tokens,
        prompt_tokens: s.prompt_tokens,
        tok_s: s.tok_s,
        tok_s_kind: owned(s.tok_s_kind.as_str()),
        wall_ms: s.wall_ms,
        output: owned(s.text.as_str()),
        at,
        workload_id: None,
        hardware_profile_id: None,
        engine_version: clone_opt(version),
        prompt_tps: s.prompt_tps,
        ttft_ms: s.ttft_ms,
        peak_vram_mb: None,
        model_rev: None,
        sampling_json: None,
        role_id: None,
        workflow_id: None,
    }
}

/// The position of the fastest of the first `n` samples; the first of equals.
pub open spec fn fastest_upto(ss: Seq<GenSample>, n: int) -> Option<int>
    decreases n,
{
    if n <= 0 {
        None
    } else {
        let before = fastest_upto(ss, n - 1);
        match ss[n - 1].tok_s {
            None => before,
            Some(v) => match before {
                None => Some(n - 1),
                Some(b) => if (ss[b].tok_s->0).below(v) {
                    Some(n - 1)
                } else {
                    before
                },
            },
        }
    }
}

/// What the engine's own gauge adds to the summary.
pub open spec fn native_note(native: Option<Seq<char>>) -> Seq<char> {
    match native {
        Some(t) => " (metrics native "@ + t + ")"@,
        None => Seq::empty(),
    }
}

/// The result of a configuration that did not boot: one record, no sample.
pub fn trial_failed(plan: &TrialPlan, verdict: &str, summary: &str, at: i64) -> (r: TrialResult)
    ensures
        r.runtime_id@ == plan.runtime_id@,
        r.display@ == plan.display@,
        r.ctx == plan.profile.ctx_size,
        r.boot_verdict@ == verdict@,
        r.boot_summary@ == summary@,
        row_views(r.rows@) == seq![boot_row(*plan, verdict@, summary@, at)],
        r.best_tps is None,
        r.best_kind is None,
        r.prompt_tps is None,
{
    let mut rows: Vec<MatrixRow> = Vec::new();
    rows.push(build_boot_row(plan, verdict, summary, at));
    assert(row_views(rows@) =~= seq![boot_row(*plan, verdict@, summary@, at)]);
    TrialResult {
        runtime_id: owned(plan.runtime_id.as_str()),
        display: owned(plan.display.as_str()),
        ctx: plan.profile.ctx_size,
        boot_verdict: owned(verdict),
        boot_summary: owned(summary),
        rows,
        best_tps: None,
        best_kind: None,
        prompt_tps: None,
    }
}

/// The result is that of a configuration that booted and gave these samples.
pub open spec fn is_measured(
    r: TrialResult,
    plan: TrialPlan,
    ss: Seq<GenSample>,
    ats: Seq<i64>,
    native: Option<Seq<char>>,
    version: Option<Seq<char>>,
) -> bool {
    &&& r.runtime_id@ == plan.runtime_id@
    &&& r.display@ == plan.display@
    &&& r.ctx == plan.profile.ctx_size
    &&& r.boot_verdict@ == "RUNNING"@
    &&& r.boot_summary@ == "serving on :"@ + decimal(plan.test_port as nat) + native_note(native)
    &&& r.rows@.len() == ss.len()
    &&& forall|i: int|
        0 <= i < ss.len() ==> (#[trigger] r.rows@[i])@ == probe_row(
            plan,
            ss[i],
            i as u32,
            version,
            ats[i],
        )
    &&& match fastest_upto(ss, ss.len() as int) {
        Some(b) => r.best_tps == ss[b].tok_s && opt_text(r.best_kind) == Some(ss[b].tok_s_kind@)
            && r.prompt_tps == ss[b].prompt_tps,
        None => r.best_tps is None && r.best_kind is None && r.prompt_tps is None,
    }
}

/// The result of a configuration that booted: a record of each sample, and the
/// fastest. `native` is the engine's own gauge as the summary writes it.
pub fn trial_measured(
    plan: &TrialPlan,
    samples: &Vec<GenSample>,
    ats: &Vec<i64>,
    native: &Option<String>,
    engine_version: &Option<String>,
) -> (r: TrialResult)
    requires
        samples@.len() == ats@.len(),
        samples@.len() <= u32::MAX,
    ensures
        is_measured(r, *plan, samples@, ats@, opt_text(*native), opt_text(*engine_version)),
{
    let mut rows: Vec<MatrixRow> = Vec::new();
    let mut best: Option<usize> = None;
    let mut i: usize = 0;
    while i < samples.len()
        invariant
            samples@.len() == ats@.len(),
            samples@.len() <= u32::MAX,
            i <= samples@.len(),
            rows@.len() == i,
            forall|j: int|
                0 <= j < i ==> (#[trigger] rows@[j])@ == probe_row(
                    *plan,
                    samples@[j],
                    j as u32,
                    opt_text(*engine_version),
                    ats@[j],
                ),
            match best {
                Some(b) => fastest_upto(samples@, i as int) == Some(b as int) && b < i
                    && samples@[b as int].tok_s is Some,
                None => fastest_upto(samples@, i as int) is None,
            },
        decreases samples@.len() - i,
    {
        let s = &samples[i];
        match s.tok_s {
            Some(v) => match best {
                None => {
                    best = Some(i);
                },
                Some(b) => match samples[b].tok_s {
                    Some(u) => {
                        if u.is_below(v) {
                            best = Some(i);
                        }
                    },
                    None => {},
                },
            },
            None => {},
        }
        rows.push(build_probe_row(plan, s, i as u32, engine_version, ats[i]));
        i = i + 1;
    }
    let mut boot_summary = owned("serving on :");
    boot_summary.append(decimal_of(plan.test_port as u64).as_str());
    let note = match native {
        Some(t) => {
            let mut n = owned(" (metrics native ");
            n.append(t.as_str());
            n.append(")");
            n
        },
        None => String::new(),
    };
    boot_summary.append(note.as_str());
    let (best_tps, best_kind, prompt_tps) = match best {
        Some(b) => (
            samples[b].tok_s,
            Some(owned(samples[b].tok_s_kind.as_str())),
            samples[b].prompt_tps,
        ),
        None => (None, None, None),
    };
    TrialResult {
        runtime_id: owned(plan.runtime_id.as_str()),
        display: owned(plan.display.as_str()),
        ctx: plan.profile.ctx_size,
        boot_verdict: owned("RUNNING"),
        boot_summary,
        rows,
        best_tps,
        best_kind,
        prompt_tps,
    }
}

/// The fastest sample is not slower than any other that has a speed, where all
/// speeds are numbers.
pub proof fn law_fastest_is_fastest(ss: Seq<GenSample>, n: int, i: int)
    requires
        0 <= i < n <= ss.len(),
        forall|k: int| 0 <= k < n && ss[k].tok_s is Some ==> !(#[trigger] ss[k].tok_s->0).nan(),
        ss[i].tok_s is Some,
    ensures
        fastest_upto(ss, n) is Some,
        ({
            let b = fastest_upto(ss, n)->0;
            0 <= b < n && ss[b].tok_s is Some && (ss[b].tok_s->0).rank() >= (ss[i].tok_s->0).rank()
        }),
    decreases n,
{
    lemma_fastest_in(ss, n);
    if i < n - 1 {
        law_fastest_is_fastest(ss, n - 1, i);
    } else {
        lemma_fastest_in(ss, n - 1);
    }
    assert(!(ss[i].tok_s->0).nan());
    if fastest_upto(ss, n - 1) is Some {
        let b = fastest_upto(ss, n - 1)->0;
        assert(!(ss[b].tok_s->0).nan());
    }
    if ss[n - 1].tok_s is Some {
        assert(!(ss[n - 1].tok_s->0).nan());
    }
}

proof fn lemma_fastest_in(ss: Seq<GenSample>, n: int)
    requires
        0 <= n <= ss.len(),
    ensures
        match fastest_upto(ss, n) {
            Some(b) => 0 <= b < n && ss[b].tok_s is Some,
            None => true,
        },
    decreases n,
{
    if n > 0 {
        lemma_fastest_in(ss, n - 1);
    }
}

/// One line of a discovery report.
#[derive(Debug, Clone, PartialEq)]
pub struct TrialSummary {
    pub runtime_id: String,
    pub display: String,
    pub ctx: u32,
    pub boot_verdict: String,
    pub tps: Option<Measure>,
    pub kind: Option<String>,
    pub prompt_tps: Option<Measure>,
    pub ok: bool,
}

#[derive(Debug, Clone, PartialEq)]
pub struct DiscoveryReport {
    pub model: String,
    pub trials: Vec<TrialSummary>,
    pub skipped: Vec<(String, String)>,
    /// The runtime with the highest measured speed.
    pub best: Option<String>,
    pub row_ids: Vec<i64>,
    pub summary: String,
}

/// The configuration served: it booted and had a positive speed.
pub open spec fn served(r: TrialResult) -> bool {
    r.boot_verdict@ == "RUNNING"@ && r.best_tps is Some && (r.best_tps->0).positive()
}

/// The line is that of a result.
pub open spec fn is_summary(t: TrialSummary, r: TrialResult) -> bool {
    &&& t.runtime_id@ == r.runtime_id@
    &&& t.display@ == r.display@
    &&& t.ctx == r.ctx
    &&& t.boot_verdict@ == r.boot_verdict@
    &&& t.tps == r.best_tps
    &&& opt_text(t.kind) == opt_text(r.best_kind)
    &&& t.prompt_tps == r.prompt_tps
    &&& t.ok == served(r)
}

/// The fastest of the first `n` results that served; the last of equals.
pub open spec fn best_upto(rs: Seq<TrialResult>, n: int) -> Option<int>
    decreases n,
{
    if n <= 0 {
        None
    } else {
        let before = best_upto(rs, n - 1);
        if served(rs[n - 1]) {
            match before {
                None => Some(n - 1),
                Some(b) => if (rs[n - 1].best_tps->0).below(rs[b].best_tps->0) {
                    before
                } else {
                    Some(n - 1)
                },
            }
        } else {
            before
        }
    }
}

/// How many of the first `n` results served.
pub open spec fn served_upto(rs: Seq<TrialResult>, n: int) -> nat
    decreases n,
{
    if n <= 0 {
        0
    } else {
        served_upto(rs, n - 1) + if served(rs[n - 1]) {
            1nat
        } else {
            0
        }
    }
}

/// The text that sums a discovery up.
pub open spec fn discovery_text(ok: nat, all: nat, best: Option<Seq<char>>) -> Seq<char> {
    "discovery: "@ + decimal(ok) + "/"@ + decimal(all) + " trial(s) served"@ + match best {
        Some(b) => " — best measured: "@ + b,
        None => Seq::empty(),
    }
}

/// The id of the best result.
pub open spec fn best_id(rs: Seq<TrialResult>) -> Option<Seq<char>> {
    match best_upto(rs, rs.len() as int) {
        Some(b) => Some(rs[b].runtime_id@),
        None => None,
    }
}

/// Ranks the results of a discovery.
pub fn summarize(
    model: &str,
    results: &Vec<TrialResult>,
    skipped: &Vec<(String, String)>,
    row_ids: &Vec<i64>,
) -> (r: DiscoveryReport)
    ensures
        r.model@ == model@,
        r.trials@.len() == results@.len(),
        forall|i: int|
            0 <= i < results@.len() ==> is_summary(#[trigger] r.trials@[i], results@[i]),
        pair_texts(r.skipped@) == pair_texts(skipped@),
        opt_text(r.best) == best_id(results@),
        r.row_ids@ == row_ids@,
        r.summary@ == discovery_text(
            served_upto(results@, results@.len() as int),
            results@.len(),
            best_id(results@),
        ),
{
    let mut trials: Vec<TrialSummary> = Vec::new();
    let mut ok_count: usize = 0;
    let mut best: Option<usize> = None;
    let mut i: usize = 0;
    while i < results.len()
        invariant
            i <= results@.len(),
            trials@.len() == i,
            forall|j: int| 0 <= j < i ==> is_summary(#[trigger] trials@[j], results@[j]),
            ok_count == served_upto(results@, i as int),
            ok_count <= i,
            match best {
                Some(b) => best_upto(results@, i as int) == Some(b as int) && b < i && served(
                    results@[b as int],
                ),
                None => best_upto(results@, i as int) is None,
            },
        decreases results@.len() - i,
    {
        let t = &results[i];
        let positive = match t.best_tps {
            Some(v) => v.is_positive(),
            None => false,
        };
        let ok = same(t.boot_verdict.as_str(), "RUNNING") && positive;
        if ok {
            ok_count = ok_count + 1;
            match best {
                None => {
                    best = Some(i);
                },
                Some(b) => match (t.best_tps, results[b].best_tps) {
                    (Some(v), Some(u)) => {
                        if !v.is_below(u) {
                            best = Some(i);
                        }
                    },
                    _ => {},
                },
            }
        }
        trials.push(
            TrialSummary {
                runtime_id: owned(t.runtime_id.as_str()),
                display: owned(t.display.as_str()),
                ctx: t.ctx,
                boot_verdict: owned(t.boot_verdict.as_str()),
                tps: t.best_tps,
                kind: clone_opt(&t.best_kind),
                prompt_tps: t.prompt_tps,
                ok,
            },
        );
        i = i + 1;
    }
    let best_name = match best {
        Some(b) => Some(owned(results[b].runtime_id.as_str())),
        None => None,
    };
    let mut summary = owned("discovery: ");
    summary.append(decimal_of(ok_count as u64).as_str());
    summary.append("/");
    summary.append(decimal_of(results.len() as u64).as_str());
    summary.append(" trial(s) served");
    let tail = match &best_name {
        Some(b) => {
            let mut t = owned(" — best measured: ");
            t.append(b.as_str());
            t
        },
        None => String::new(),
    };
    summary.append(tail.as_str());
    DiscoveryReport {
        model: owned(model),
        trials,
        skipped: copy_pairs(skipped),
        best: best_name,
        row_ids: copy_ids(row_ids),
        summary,
    }
}

fn copy_pairs(v: &Vec<(String, String)>) -> (r: Vec<(String, String)>)
    ensures
        pair_texts(r@) == pair_texts(v@),
{
    let mut r: Vec<(String, String)> = Vec::new();
    let mut i: usize = 0;
    while i < v.len()
        invariant
            i <= v@.len(),
            r@.len() == i,
            forall|j: int|
                0 <= j < i ==> (#[trigger] r@[j]).0@ == v@[j].0@ && r@[j].1@ == v@[j].1@,
        decreases v@.len() - i,
    {
        r.push((owned(v[i].0.as_str()), owned(v[i].1.as_str())));
        i = i + 1;
    }
    assert(pair_texts(r@) =~= pair_texts(v@));
    r
}

fn copy_ids(v: &Vec<i64>) -> (r: Vec<i64>)
    ensures
        r@ == v@,
{
    let mut r: Vec<i64> = Vec::new();
    let mut i: usize = 0;
    while i < v.len()
        invariant
            i <= v@.len(),
            r@ == v@.take(i as int),
        decreases v@.len() - i,
    {
        r.push(v[i]);
        assert(v@.take(i + 1) =~= v@.take(i as int).push(v@[i as int]));
        i = i + 1;
    }
    assert(v@.take(i as int) =~= v@);
    r
}

} // verus!
