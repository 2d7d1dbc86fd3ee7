//! Fit planning: model × runtime × hardware → ranked configurations.
//!
//! For every runtime that can load an artifact the context is raised step by
//! step while the estimate fits. The candidates are ranked by the context that
//! they reach.
use vstd::prelude::*;
use vstd::string::StringExecFns;

use crate::fit::{breakdown, estimate, less, FitBreakdown, FitRequest, Verdict};
use crate::library::{explain_fit, fit_explanation};
use crate::model::ModelMeta;
use crate::order::{in_order, is_stable_order, lemma_in_order, stable_order, Ranking};
use crate::profile::{
    default_bin, engine_port, engine_test_port, engine_with_id, has_default_tuning, Engine,
    Profile,
};
use crate::runtime::{supports_spec, RuntimeManifest, RuntimeStatus};
use crate::text::{opt_text, owned, same, texts};

verus! {

/// One viable configuration for one runtime.
#[derive(Debug, Clone, PartialEq)]
pub struct FitCandidate {
    pub runtime_id: String,
    pub display: String,
    pub status: String,
    pub max_ctx: u64,
    pub kv_label: String,
    pub model_vram_mb: u64,
    pub weights_ram_mb: u64,
    pub available_mb: u64,
    pub headroom_mb: u64,
    pub verdict: String,
    /// Why this configuration, for people.
    pub why: String,
}

/// The step by which the context is raised.
pub const CTX_STEP: u64 = 2048;

/// The number of steps up to the largest context.
pub const CTX_STEPS: u64 = 128;

/// The request that the planner makes for a context.
pub open spec fn request_at(ctx: u64, offload: bool) -> FitRequest {
    FitRequest {
        ctx,
        kv_nano: 500_000_000,
        ngl_nano: 1_000_000_000,
        kv_layers: None,
        reserved_mb: 1600,
        offload,
    }
}

/// The estimate at a number of steps.
pub open spec fn at_step(meta: ModelMeta, offload: bool, vram_mb: u64, k: int) -> FitBreakdown {
    breakdown(meta, request_at((CTX_STEP * k) as u64, offload), vram_mb)
}

/// A load does not run out of memory at a number of steps.
pub open spec fn fits_at(meta: ModelMeta, offload: bool, vram_mb: u64, k: int) -> bool {
    at_step(meta, offload, vram_mb, k).verdict != Verdict::Oom
}

/// The number of steps, from `k` up, that can be taken one by one.
pub open spec fn climb(meta: ModelMeta, offload: bool, vram_mb: u64, k: int) -> int
    decreases CTX_STEPS - k,
{
    if k < CTX_STEPS && fits_at(meta, offload, vram_mb, k + 1) {
        climb(meta, offload, vram_mb, k + 1)
    } else {
        k
    }
}

/// The largest context that fits, with its estimate.
pub open spec fn max_ctx_spec(meta: ModelMeta, offload: bool, vram_mb: u64) -> Option<
    (u64, FitBreakdown),
> {
    let k = climb(meta, offload, vram_mb, 0);
    if k > 0 {
        Some(((CTX_STEP * k) as u64, at_step(meta, offload, vram_mb, k)))
    } else {
        None
    }
}

/// Raises the context from 2048 by 2048 up to 262144, and keeps the largest
/// that fits.
pub fn max_ctx_for(meta: &ModelMeta, offload: bool, vram_mb: u64) -> (r: Option<
    (u64, FitBreakdown),
>)
    ensures
        r == max_ctx_spec(*meta, offload, vram_mb),
{
    let mut best: Option<(u64, FitBreakdown)> = None;
    let mut k: u64 = 0;
    while k < CTX_STEPS
        invariant_except_break
            climb(*meta, offload, vram_mb, 0) == climb(*meta, offload, vram_mb, k as int),
        invariant
            k <= CTX_STEPS,
            k == 0 ==> best is None,
            k > 0 ==> best == Some(
                ((CTX_STEP * k) as u64, at_step(*meta, offload, vram_mb, k as int)),
            ),
        ensures
            climb(*meta, offload, vram_mb, 0) == k,
        decreases CTX_STEPS - k,
    {
        let ctx: u64 = CTX_STEP * (k + 1);
        let req = FitRequest {
            ctx,
            kv_nano: 500_000_000,
            ngl_nano: 1_000_000_000,
            kv_layers: None,
            reserved_mb: 1600,
            offload,
        };
        let fb = estimate(meta, &req, vram_mb);
        match fb.verdict {
            Verdict::Oom => {
                break;
            },
            _ => {},
        }
        best = Some((ctx, fb));
        k = k + 1;
    }
    best
}

proof fn lemma_mul_mono(a: int, b: int, c: int)
    requires
        0 <= a <= b,
        0 <= c,
    ensures
        a * c <= b * c,
{
    assert(a * c <= b * c) by (nonlinear_arith)
        requires
            0 <= a <= b,
            0 <= c,
    ;
}

/// A load that fits at some number of steps fits at every smaller one.
pub proof fn law_fit_is_monotone(meta: ModelMeta, offload: bool, vram_mb: u64, j: int, k: int)
    requires
        0 <= j <= k <= CTX_STEPS,
        fits_at(meta, offload, vram_mb, k),
    ensures
        fits_at(meta, offload, vram_mb, j),
{
    let a = (CTX_STEP * j) as u64;
    let b = (CTX_STEP * k) as u64;
    assert(a <= b);
    let layers = match meta.n_layers {
        Some(n) => n,
        None => 0,
    };
    let embd = match meta.n_embd {
        Some(n) => n,
        None => 0,
    };
    lemma_mul_mono(a as int, b as int, layers as int);
    let ca = crate::fit::capped(a * layers);
    let cb = crate::fit::capped(b * layers);
    lemma_mul_mono(ca as int, cb as int, embd as int);
    let ra = request_at(a, offload);
    let rb = request_at(b, offload);
    let ea = crate::fit::kv_elements(meta, ra);
    let eb = crate::fit::kv_elements(meta, rb);
    assert(ea <= eb);
    assert(ea * 500 * 2 / 1048576000 <= eb * 500 * 2 / 1048576000);
    assert(crate::fit::kv_mb(meta, ra) <= crate::fit::kv_mb(meta, rb));
    lemma_mul_mono(a * 2, b * 2, embd as int);
    assert(a * 2 * embd / 1048576 <= b * 2 * embd / 1048576) by {
        vstd::arithmetic::div_mod::lemma_div_is_ordered(a * 2 * embd, b * 2 * embd, 1048576);
    }
    assert(crate::fit::buffers_mb(meta, ra) <= crate::fit::buffers_mb(meta, rb));
}

/// The planner's context is the largest that fits: every smaller step fits, and
/// no larger one does.
pub proof fn law_max_ctx_is_largest(meta: ModelMeta, offload: bool, vram_mb: u64, j: int)
    requires
        1 <= j <= CTX_STEPS,
    ensures
        fits_at(meta, offload, vram_mb, j) <==> j <= climb(meta, offload, vram_mb, 0),
{
    lemma_climb(meta, offload, vram_mb, 0);
    let k = climb(meta, offload, vram_mb, 0);
    if j > k && fits_at(meta, offload, vram_mb, j) {
        law_fit_is_monotone(meta, offload, vram_mb, k + 1, j);
    }
}

proof fn lemma_climb(meta: ModelMeta, offload: bool, vram_mb: u64, k: int)
    requires
        0 <= k <= CTX_STEPS,
    ensures
        k <= climb(meta, offload, vram_mb, k) <= CTX_STEPS,
        forall|j: int|
            k < j <= climb(meta, offload, vram_mb, k) ==> #[trigger] fits_at(
                meta,
                offload,
                vram_mb,
                j,
            ),
        climb(meta, offload, vram_mb, k) < CTX_STEPS ==> !fits_at(
            meta,
            offload,
            vram_mb,
            climb(meta, offload, vram_mb, k) + 1,
        ),
    decreases CTX_STEPS - k,
{
    if k < CTX_STEPS && fits_at(meta, offload, vram_mb, k + 1) {
        lemma_climb(meta, offload, vram_mb, k + 1);
    }
}

/// The order of maturities: the more stable first.
pub open spec fn status_rank(s: RuntimeStatus) -> int {
    match s {
        RuntimeStatus::Stable => 0,
        RuntimeStatus::Community => 1,
        RuntimeStatus::Experimental => 2,
        RuntimeStatus::Unknown => 3,
    }
}

/// The artifact's architecture.
pub open spec fn spills(rt: RuntimeManifest) -> bool {
    texts(rt.capabilities@).contains("offload"@)
}

/// The runtime can load the artifact, and some context fits.
pub open spec fn viable(meta: ModelMeta, rt: RuntimeManifest, vram_mb: u64) -> bool {
    supports_spec(rt, meta.format, opt_text(meta.arch)) && max_ctx_spec(
        meta,
        spills(rt),
        vram_mb,
    ) is Some
}

/// The positions of the first `n` runtimes that are viable.
pub open spec fn viable_upto(
    meta: ModelMeta,
    runtimes: Seq<RuntimeManifest>,
    vram_mb: u64,
    n: int,
) -> Seq<int>
    decreases n,
{
    if n <= 0 {
        Seq::empty()
    } else {
        let rest = viable_upto(meta, runtimes, vram_mb, n - 1);
        if viable(meta, runtimes[n - 1], vram_mb) {
            rest.push(n - 1)
        } else {
            rest
        }
    }
}

/// The candidate is that of a viable runtime.
pub open spec fn is_candidate(
    c: FitCandidate,
    meta: ModelMeta,
    rt: RuntimeManifest,
    vram_mb: u64,
) -> bool {
    let (ctx, fb) = max_ctx_spec(meta, spills(rt), vram_mb)->0;
    &&& c.runtime_id@ == rt.id@
    &&& c.display@ == rt.display@
    &&& c.status@ == rt.status.spec_tag()
    &&& c.max_ctx == ctx
    &&& c.kv_label@ == "Q4"@
    &&& c.model_vram_mb == fb.model_vram_mb
    &&& c.weights_ram_mb == fb.weights_ram_mb
    &&& c.available_mb == fb.available_mb
    &&& c.headroom_mb == less(fb.available_for_model_mb, fb.model_vram_mb)
    &&& c.verdict@ == fb.verdict.spec_tag()
    &&& c.why@ == fit_explanation(
        rt.id@,
        ctx,
        "Q4"@,
        fb.model_vram_mb,
        fb.available_mb,
        spills(rt),
    )
}

/// Compares viable runtimes: the larger context first, then the more stable.
pub open spec fn preferred(
    meta: ModelMeta,
    runtimes: Seq<RuntimeManifest>,
    vram_mb: u64,
    at: Seq<int>,
) -> spec_fn(int, int) -> bool {
    |i: int, j: int|
        {
            let a = runtimes[at[i]];
            let b = runtimes[at[j]];
            let x = (max_ctx_spec(meta, spills(a), vram_mb)->0).0;
            let y = (max_ctx_spec(meta, spills(b), vram_mb)->0).0;
            x > y || (x == y && status_rank(a.status) < status_rank(b.status))
        }
}

/// The candidates are those of the viable runtimes, best first.
pub open spec fn are_candidates(
    cs: Seq<FitCandidate>,
    meta: ModelMeta,
    runtimes: Seq<RuntimeManifest>,
    vram_mb: u64,
) -> bool {
    let at = viable_upto(meta, runtimes, vram_mb, runtimes.len() as int);
    exists|p: Seq<usize>|
        {
            &&& #[trigger] in_order(p, at.len(), preferred(meta, runtimes, vram_mb, at))
            &&& cs.len() == at.len()
            &&& forall|i: int|
                0 <= i < cs.len() ==> is_candidate(
                    #[trigger] cs[i],
                    meta,
                    runtimes[at[p[i] as int]],
                    vram_mb,
                )
        }
}

/// Contexts, largest first, then ranks, smallest first.
struct Preference {
    ctx: Vec<u64>,
    rank: Vec<u64>,
}

impl Ranking for Preference {
    closed spec fn count(&self) -> nat {
        if self.ctx@.len() <= self.rank@.len() {
            self.ctx@.len()
        } else {
            self.rank@.len()
        }
    }

    closed spec fn before(&self, i: int, j: int) -> bool {
        self.ctx@[i] > self.ctx@[j] || (self.ctx@[i] == self.ctx@[j] && self.rank@[i]
            < self.rank@[j])
    }

    proof fn weak_order(&self, i: int, j: int, k: int) {
    }

    fn len(&self) -> usize {
        if self.ctx.len() <= self.rank.len() {
            self.ctx.len()
        } else {
            self.rank.len()
        }
    }

    fn comes_before(&self, i: usize, j: usize) -> bool {
        self.ctx[i] > self.ctx[j] || (self.ctx[i] == self.ctx[j] && self.rank[i] < self.rank[j])
    }
}

fn rank_of(s: RuntimeStatus) -> (r: u64)
    ensures
        r == status_rank(s),
{
    match s {
        RuntimeStatus::Stable => 0,
        RuntimeStatus::Community => 1,
        RuntimeStatus::Experimental => 2,
        RuntimeStatus::Unknown => 3,
    }
}

/// The largest context of a runtime that can load the artifact.
fn viable_ctx(meta: &ModelMeta, rt: &RuntimeManifest, vram_mb: u64) -> (r: Option<
    (u64, FitBreakdown),
>)
    ensures
        r is Some <==> viable(*meta, *rt, vram_mb),
        r is Some ==> r == max_ctx_spec(*meta, spills(*rt), vram_mb),
{
    let arch: Option<&str> = match &meta.arch {
        Some(a) => Some(a.as_str()),
        None => None,
    };
    if !rt.supports(&meta.format, arch) {
        return None;
    }
    max_ctx_for(meta, rt.is_offload(), vram_mb)
}

fn candidate(meta: &ModelMeta, rt: &RuntimeManifest, vram_mb: u64, ctx: u64, fb: &FitBreakdown) -> (c:
    FitCandidate)
    requires
        max_ctx_spec(*meta, spills(*rt), vram_mb) == Some((ctx, *fb)),
    ensures
        is_candidate(c, *meta, *rt, vram_mb),
{
    FitCandidate {
        runtime_id: owned(rt.id.as_str()),
        display: owned(rt.display.as_str()),
        status: owned(rt.status.tag()),
        max_ctx: ctx,
        kv_label: owned("Q4"),
        model_vram_mb: fb.model_vram_mb,
        weights_ram_mb: fb.weights_ram_mb,
        available_mb: fb.available_mb,
        headroom_mb: fb.available_for_model_mb.saturating_sub(fb.model_vram_mb),
        verdict: owned(fb.verdict.tag()),
        why: explain_fit(
            rt.id.as_str(),
            ctx,
            "Q4",
            fb.model_vram_mb,
            fb.available_mb,
            rt.is_offload(),
        ),
    }
}

/// The candidates for every runtime that can load the artifact, best first.
pub fn candidates_for(meta: &ModelMeta, runtimes: &Vec<RuntimeManifest>, vram_mb: u64) -> (r: Vec<
    FitCandidate,
>)
    ensures
        are_candidates(r@, *meta, runtimes@, vram_mb),
{
    let mut at: Vec<usize> = Vec::new();
    let mut found: Vec<(u64, FitBreakdown)> = Vec::new();
    let mut ctx: Vec<u64> = Vec::new();
    let mut rank: Vec<u64> = Vec::new();
    let mut i: usize = 0;
    while i < runtimes.len()
        invariant
            i <= runtimes@.len(),
            at@.len() == viable_upto(*meta, runtimes@, vram_mb, i as int).len(),
            found@.len() == at@.len(),
            ctx@.len() == at@.len(),
            rank@.len() == at@.len(),
            forall|k: int|
                0 <= k < at@.len() ==> #[trigger] at@[k] == viable_upto(
                    *meta,
                    runtimes@,
                    vram_mb,
                    i as int,
                )[k] && at@[k] < i && max_ctx_spec(
                    *meta,
                    spills(runtimes@[at@[k] as int]),
                    vram_mb,
                ) == Some(found@[k]) && ctx@[k] == found@[k].0 && rank@[k] == status_rank(
                    runtimes@[at@[k] as int].status,
                ),
        decreases runtimes@.len() - i,
    {
        match viable_ctx(meta, &runtimes[i], vram_mb) {
            Some(best) => {
                ctx.push(best.0);
                rank.push(rank_of(runtimes[i].status));
                found.push(best);
                at.push(i);
            },
            None => {},
        }
        i = i + 1;
    }
    let ghost kept = viable_upto(*meta, runtimes@, vram_mb, runtimes@.len() as int);
    let keys = Preference { ctx, rank };
    let p = stable_order(&keys);
    let mut r: Vec<FitCandidate> = Vec::new();
    let mut k: usize = 0;
    while k < p.len()
        invariant
            is_stable_order(&keys, p@),
            keys.count() == at@.len(),
            found@.len() == at@.len(),
            k <= p@.len(),
            r@.len() == k,
            forall|j: int|
                0 <= j < at@.len() ==> #[trigger] at@[j] < runtimes@.len() && max_ctx_spec(
                    *meta,
                    spills(runtimes@[at@[j] as int]),
                    vram_mb,
                ) == Some(found@[j]),
            forall|j: int|
                0 <= j < k ==> is_candidate(
                    #[trigger] r@[j],
                    *meta,
                    runtimes@[at@[p@[j] as int] as int],
                    vram_mb,
                ),
        decreases p@.len() - k,
    {
        assert(p@[k as int] < at@.len());
        let j = p[k];
        assert(at@[j as int] < runtimes@.len());
        let (c, fb) = found[j];
        r.push(candidate(meta, &runtimes[at[j]], vram_mb, c, &fb));
        k = k + 1;
    }
    proof {
        let order = preferred(*meta, runtimes@, vram_mb, kept);
        assert forall|i: int, j: int|
            0 <= i < keys.count() && 0 <= j < keys.count() implies #[trigger] keys.before(i, j)
            == order(i, j) by {
            assert(at@[i] == kept[i] && at@[j] == kept[j]);
        }
        lemma_in_order(&keys, p@, order);
        assert(in_order(p@, kept.len(), order));
        assert forall|j: int| 0 <= j < r@.len() implies is_candidate(
            #[trigger] r@[j],
            *meta,
            runtimes@[kept[p@[j] as int]],
            vram_mb,
        ) by {
            assert(p@[j] < at@.len());
            assert(at@[p@[j] as int] == kept[p@[j] as int]);
        }
    }
    r
}

/// The best candidate, if there is any.
pub fn recommend(meta: &ModelMeta, runtimes: &Vec<RuntimeManifest>, vram_mb: u64) -> (r: Option<
    FitCandidate,
>)
    ensures
        exists|cs: Seq<FitCandidate>|
            #![trigger are_candidates(cs, *meta, runtimes@, vram_mb)]
            are_candidates(cs, *meta, runtimes@, vram_mb) && r == if cs.len() > 0 {
                Some(cs[0])
            } else {
                None
            },
{
    let mut cs = candidates_for(meta, runtimes, vram_mb);
    let ghost all = cs@;
    assert(are_candidates(all, *meta, runtimes@, vram_mb));
    if cs.len() == 0 {
        None
    } else {
        Some(cs.remove(0))
    }
}

/// A loadout that was derived from an artifact and the hardware.
#[derive(Debug, Clone, PartialEq)]
pub struct DerivedLoadout {
    pub profile: Profile,
    /// The largest context that fits.
    pub max_ctx: u32,
}

/// The message for an artifact that fits no context.
pub open spec fn no_fit_error(runtime_id: Seq<char>) -> Seq<char> {
    runtime_id + ": model does not fit at any context"@
}

/// The profile launches the artifact with a runtime at a context.
pub open spec fn launches(
    p: Profile,
    meta: ModelMeta,
    engine: Engine,
    runtime_id: Option<Seq<char>>,
    port: u16,
    ctx: u64,
) -> bool {
    &&& p.ctx_size == ctx
    &&& p.engine == engine
    &&& opt_text(p.runtime_id) == runtime_id
    &&& p.bin@ == default_bin()
    &&& p.model@ == meta.path@
    &&& p.alias@ == meta.name@
    &&& p.port == port
    &&& opt_text(p.ft_backend) == if engine == Engine::FreeToken {
        Some("offload"@)
    } else {
        None
    }
    &&& has_default_tuning(p)
}

/// The loadout launches the artifact with a runtime at its largest context.
pub open spec fn is_loadout(
    d: DerivedLoadout,
    meta: ModelMeta,
    engine: Engine,
    runtime_id: Option<Seq<char>>,
    port: u16,
    ctx: u64,
) -> bool {
    &&& d.max_ctx == ctx
    &&& d.profile.name@.len() == 0
    &&& launches(d.profile, meta, engine, runtime_id, port, ctx)
}

fn loadout(
    meta: &ModelMeta,
    engine: Engine,
    runtime_id: Option<String>,
    port: u16,
    offload: bool,
    vram_mb: u64,
) -> (r: Option<DerivedLoadout>)
    ensures
        match r {
            Some(d) => max_ctx_spec(*meta, offload, vram_mb) is Some && is_loadout(
                d,
                *meta,
                engine,
                opt_text(runtime_id),
                port,
                (max_ctx_spec(*meta, offload, vram_mb)->0).0,
            ),
            None => max_ctx_spec(*meta, offload, vram_mb) is None,
        },
{
    match max_ctx_for(meta, offload, vram_mb) {
        Some((ctx, _)) => {
            proof {
                lemma_climb(*meta, offload, vram_mb, 0);
            }
            let mut profile = Profile::default();
            profile.engine = engine;
            profile.runtime_id = runtime_id;
            profile.model = owned(meta.path.as_str());
            profile.alias = owned(meta.name.as_str());
            profile.port = port;
            profile.ctx_size = ctx as u32;
            if engine == Engine::FreeToken {
                profile.ft_backend = Some(owned("offload"));
            }
            Some(DerivedLoadout { profile, max_ctx: ctx as u32 })
        },
        None => None,
    }
}

/// The first manifest with an id.
pub open spec fn manifest_from(ms: Seq<RuntimeManifest>, id: Seq<char>, i: int) -> Option<int>
    decreases ms.len() - i,
{
    if i < 0 || i >= ms.len() {
        None
    } else if ms[i].id@ == id {
        Some(i)
    } else {
        manifest_from(ms, id, i + 1)
    }
}

/// The position of the first manifest with an id.
pub open spec fn manifest_with_id(ms: Seq<RuntimeManifest>, id: Seq<char>) -> Option<int> {
    manifest_from(ms, id, 0)
}

/// The position of the first manifest with an id.
pub fn find_manifest(ms: &Vec<RuntimeManifest>, id: &str) -> (r: Option<usize>)
    ensures
        match r {
            Some(i) => manifest_with_id(ms@, id@) == Some(i as int) && i < ms@.len() && ms@[i as int].id@
                == id@,
            None => manifest_with_id(ms@, id@) is None,
        },
{
    let mut i: usize = 0;
    while i < ms.len()
        invariant
            i <= ms@.len(),
            manifest_with_id(ms@, id@) == manifest_from(ms@, id@, i as int),
        decreases ms@.len() - i,
    {
        if same(ms[i].id.as_str(), id) {
            return Some(i);
        }
        i = i + 1;
    }
    None
}

/// The message for an id that names no runtime.
pub open spec fn unknown_runtime_error(id: Seq<char>) -> Seq<char> {
    "unknown engine/runtime '"@ + id
        + "' (builtins: llamacpp|freetoken|ollama; or a manifest in ~/.local/share/cyberdeck/runtimes)"@
}

/// What a runtime id resolves to.
pub struct Target {
    pub engine: Engine,
    /// The id, where it is that of a custom runtime.
    pub runtime_id: Option<Seq<char>>,
    pub port: u16,
    pub test_port: u16,
    pub offload: bool,
}

/// What a runtime id resolves to: a builtin engine, or else a custom runtime
/// of the registry.
pub open spec fn target_of(id: Seq<char>, ms: Seq<RuntimeManifest>) -> Option<Target> {
    match engine_with_id(id) {
        Some(e) => Some(
            Target {
                engine: e,
                runtime_id: None,
                port: engine_port(e),
                test_port: engine_test_port(e),
                offload: e == Engine::FreeToken,
            },
        ),
        None => match manifest_with_id(ms, id) {
            Some(i) => Some(
                Target {
                    engine: Engine::LlamaCpp,
                    runtime_id: Some(id),
                    port: ms[i].default_port,
                    test_port: ms[i].test_port,
                    offload: spills(ms[i]),
                },
            ),
            None => None,
        },
    }
}

/// Derives the loadout of an artifact for a runtime, a builtin engine or a
/// custom one of the registry, with the port on which to try it.
pub fn plan_for_runtime(
    meta: &ModelMeta,
    runtime_id: &str,
    manifests: &Vec<RuntimeManifest>,
    vram_mb: u64,
) -> (r: Result<(DerivedLoadout, u16), String>)
    ensures
        match target_of(runtime_id@, manifests@) {
            Some(t) => match (r, max_ctx_spec(*meta, t.offload, vram_mb)) {
                (Ok((d, port)), Some((ctx, _))) => port == t.test_port && is_loadout(
                    d,
                    *meta,
                    t.engine,
                    t.runtime_id,
                    t.port,
                    ctx,
                ),
                (Err(msg), None) => msg@ == no_fit_error(runtime_id@),
                _ => false,
            },
            None => r is Err && r->Err_0@ == unknown_runtime_error(runtime_id@),
        },
{
    let (derived, port) = match Engine::parse(runtime_id) {
        Some(e) => (
            loadout(meta, e, None, e.default_port(), e == Engine::FreeToken, vram_mb),
            e.test_port(),
        ),
        None => match find_manifest(manifests, runtime_id) {
            Some(i) => {
                let m = &manifests[i];
                (
                    loadout(
                        meta,
                        Engine::LlamaCpp,
                        Some(owned(runtime_id)),
                        m.default_port,
                        m.is_offload(),
                        vram_mb,
                    ),
                    m.test_port,
                )
            },
            None => {
                let mut e = owned("unknown engine/runtime '");
                e.append(runtime_id);
                e.append(
                    "' (builtins: llamacpp|freetoken|ollama; or a manifest in ~/.local/share/cyberdeck/runtimes)",
                );
                return Err(e);
            },
        },
    };
    match derived {
        Some(d) => Ok((d, port)),
        None => {
            let mut e = owned(runtime_id);
            e.append(": model does not fit at any context");
            Err(e)
        },
    }
}

} // verus!
