//! The planner: the largest context that fits, and the runtime that reaches it.
use vstd::prelude::*;

use crate::fit::{estimate, FitBreakdown, FitRequest, Verdict};
use crate::fitplan::{
    at_step, candidates_for, climb, fits_at, is_candidate, law_max_ctx_is_largest, max_ctx_for,
    preferred, recommend, spills, viable, viable_upto, FitCandidate,
};
use crate::model::{ModelFormat, ModelMeta};
use crate::order::{in_order, lemma_permutation_hits};
use crate::runtime::{ModelSourceSer, RuntimeManifest, RuntimeStatus};

verus! {

/// The request is one of the planner's: a context in steps of 2048 up to
/// 262144, KV elements of half a byte, all layers on the GPU, 1600 MiB kept
/// back.
pub open spec fn is_planned(q: FitRequest, offload: bool) -> bool {
    &&& q.ctx % 2048 == 0
    &&& 0 < q.ctx <= 262_144
    &&& q.kv_nano == 500_000_000
    &&& q.ngl_nano == 1_000_000_000
    &&& q.kv_layers is None
    &&& q.reserved_mb == 1600
    &&& q.offload == offload
}

proof fn lemma_planned(q: FitRequest, offload: bool)
    requires
        is_planned(q, offload),
    ensures
        1 <= q.ctx / 2048 <= 128,
        q == crate::fitplan::request_at((2048 * (q.ctx / 2048)) as u64, offload),
{
}

/// The context that is found is the largest of the planner's that does not run
/// out of memory, with its estimate; none is found exactly where even the
/// smallest does.
pub proof fn law_largest_context_that_fits(
    meta: &ModelMeta,
    offload: bool,
    vram_mb: u64,
    r: Option<(u64, FitBreakdown)>,
    q: &FitRequest,
    e: FitBreakdown,
)
    requires
        call_ensures(max_ctx_for, (meta, offload, vram_mb), r),
        is_planned(*q, offload),
        call_ensures(estimate, (meta, q, vram_mb), e),
    ensures
        e.verdict != Verdict::Oom <==> r is Some && q.ctx <= (r->0).0,
        r is Some && q.ctx == (r->0).0 ==> (r->0).1 == e,
        r is Some ==> (r->0).0 % 2048 == 0 && 0 < (r->0).0 <= 262_144,
{
    lemma_planned(*q, offload);
    let k = (q.ctx / 2048) as int;
    assert(q.ctx == 2048 * k);
    assert(e == at_step(*meta, offload, vram_mb, k));
    law_max_ctx_is_largest(*meta, offload, vram_mb, k);
    lemma_climb_bounds(*meta, offload, vram_mb, 0);
}

proof fn lemma_climb_bounds(meta: ModelMeta, offload: bool, vram_mb: u64, k: int)
    requires
        0 <= k <= 128,
    ensures
        k <= climb(meta, offload, vram_mb, k) <= 128,
    decreases 128 - k,
{
    if k < 128 && fits_at(meta, offload, vram_mb, k + 1) {
        lemma_climb_bounds(meta, offload, vram_mb, k + 1);
    }
}

/// The status of one candidate is no less stable than that of another: stable,
/// then community, then experimental, then unknown.
pub open spec fn no_less_stable(a: Seq<char>, b: Seq<char>) -> bool {
    ||| a == "stable"@
    ||| a == "community"@ && b != "stable"@
    ||| a == "experimental"@ && b != "stable"@ && b != "community"@
    ||| b == "unknown"@
}

/// The runtime takes artifacts of a kind: it loads local files, and lists the
/// format and the architecture, or none, which means any.
pub open spec fn takes(rt: RuntimeManifest, meta: ModelMeta) -> bool {
    &&& rt.model_source == ModelSourceSer::LocalPath
    &&& rt.formats@.len() == 0 || exists|k: int|
        0 <= k < rt.formats@.len() && (#[trigger] rt.formats@[k])@ == match meta.format {
            ModelFormat::Gguf => "gguf"@,
            ModelFormat::SafetensorsDir => "safetensors-dir"@,
        }
    &&& rt.architectures@.len() == 0 || exists|k: int|
        0 <= k < rt.architectures@.len() && (#[trigger] rt.architectures@[k])@
            == match meta.arch {
            Some(a) => a@,
            None => "?"@,
        }
}

/// The runtime spills weights to RAM.
pub open spec fn offloads(rt: RuntimeManifest) -> bool {
    exists|k: int| 0 <= k < rt.capabilities@.len() && (#[trigger] rt.capabilities@[k])@ == "offload"@
}

proof fn lemma_lists(v: Seq<String>, s: Seq<char>)
    ensures
        crate::text::texts(v).contains(s) <==> exists|k: int|
            0 <= k < v.len() && (#[trigger] v[k])@ == s,
{
    let t = crate::text::texts(v);
    if t.contains(s) {
        let k = choose|k: int| 0 <= k < t.len() && t[k] == s;
        assert(v[k]@ == s);
    }
    if exists|k: int| 0 <= k < v.len() && (#[trigger] v[k])@ == s {
        let k = choose|k: int| 0 <= k < v.len() && (#[trigger] v[k])@ == s;
        assert(t[k] == s);
    }
}

proof fn lemma_takes(rt: RuntimeManifest, meta: ModelMeta)
    ensures
        crate::runtime::supports_spec(rt, meta.format, crate::text::opt_text(meta.arch))
            <==> takes(rt, meta),
        spills(rt) <==> offloads(rt),
{
    lemma_lists(
        rt.formats@,
        match meta.format {
            ModelFormat::Gguf => "gguf"@,
            ModelFormat::SafetensorsDir => "safetensors-dir"@,
        },
    );
    lemma_lists(
        rt.architectures@,
        match meta.arch {
            Some(a) => a@,
            None => "?"@,
        },
    );
    lemma_lists(rt.capabilities@, "offload"@);
}

proof fn lemma_viable(meta: ModelMeta, rts: Seq<RuntimeManifest>, vram_mb: u64, n: int)
    requires
        0 <= n <= rts.len(),
    ensures
        forall|k: int|
            0 <= k < viable_upto(meta, rts, vram_mb, n).len() ==> 0 <= #[trigger] viable_upto(
                meta,
                rts,
                vram_mb,
                n,
            )[k] < n && viable(meta, rts[viable_upto(meta, rts, vram_mb, n)[k]], vram_mb),
        forall|m: int|
            0 <= m < n && viable(meta, #[trigger] rts[m], vram_mb) ==> viable_upto(
                meta,
                rts,
                vram_mb,
                n,
            ).contains(m),
    decreases n,
{
    if n > 0 {
        lemma_viable(meta, rts, vram_mb, n - 1);
        let rest = viable_upto(meta, rts, vram_mb, n - 1);
        let all = viable_upto(meta, rts, vram_mb, n);
        assert forall|m: int| 0 <= m < n && viable(meta, #[trigger] rts[m], vram_mb) implies all.contains(m) by {
            if m < n - 1 {
                let k = choose|k: int| 0 <= k < rest.len() && rest[k] == m;
                assert(all[k] == m);
            } else {
                assert(all[rest.len() as int] == m);
            }
        }
    }
}

proof fn lemma_status_texts()
    ensures
        "stable"@ != "community"@,
        "stable"@ != "experimental"@,
        "stable"@ != "unknown"@,
        "community"@ != "experimental"@,
        "community"@ != "unknown"@,
        "experimental"@ != "unknown"@,
{
    reveal_strlit("stable");
    reveal_strlit("community");
    reveal_strlit("experimental");
    reveal_strlit("unknown");
    assert("stable"@.len() == 6 && "community"@.len() == 9 && "experimental"@.len() == 12
        && "unknown"@.len() == 7);
}

/// Of two candidates the earlier reaches at least the context of the later, and
/// where both reach the same it is no less stable.
pub proof fn law_larger_context_first(
    meta: &ModelMeta,
    runtimes: &Vec<RuntimeManifest>,
    vram_mb: u64,
    r: Vec<FitCandidate>,
    i: int,
    j: int,
)
    requires
        call_ensures(candidates_for, (meta, runtimes, vram_mb), r),
        0 <= i < j < r@.len(),
    ensures
        r@[i].max_ctx >= r@[j].max_ctx,
        r@[i].max_ctx == r@[j].max_ctx ==> no_less_stable(r@[i].status@, r@[j].status@),
{
    let at = viable_upto(*meta, runtimes@, vram_mb, runtimes@.len() as int);
    let less = preferred(*meta, runtimes@, vram_mb, at);
    let p = choose|p: Seq<usize>|
        {
            &&& #[trigger] in_order(p, at.len(), less)
            &&& r@.len() == at.len()
            &&& forall|i: int|
                0 <= i < r@.len() ==> is_candidate(
                    #[trigger] r@[i],
                    *meta,
                    runtimes@[at[p[i] as int]],
                    vram_mb,
                )
        };
    assert(is_candidate(r@[i], *meta, runtimes@[at[p[i] as int]], vram_mb));
    assert(is_candidate(r@[j], *meta, runtimes@[at[p[j] as int]], vram_mb));
    assert(less(p[i] as int, p[j] as int) || !less(p[j] as int, p[i] as int));
    lemma_status_texts();
}

/// Every runtime that takes the artifact and fits some context is among the
/// candidates, at no smaller context.
pub proof fn law_every_viable_runtime_is_listed(
    meta: &ModelMeta,
    runtimes: &Vec<RuntimeManifest>,
    vram_mb: u64,
    r: Vec<FitCandidate>,
    m: int,
    q: &FitRequest,
    e: FitBreakdown,
)
    requires
        call_ensures(candidates_for, (meta, runtimes, vram_mb), r),
        0 <= m < runtimes@.len(),
        takes(runtimes@[m], *meta),
        is_planned(*q, offloads(runtimes@[m])),
        call_ensures(estimate, (meta, q, vram_mb), e),
        e.verdict != Verdict::Oom,
    ensures
        exists|i: int|
            0 <= i < r@.len() && (#[trigger] r@[i]).runtime_id@ == runtimes@[m].id@ && r@[i].max_ctx
                >= q.ctx,
{
    let rt = runtimes@[m];
    let n = runtimes@.len() as int;
    let at = viable_upto(*meta, runtimes@, vram_mb, n);
    let less = preferred(*meta, runtimes@, vram_mb, at);
    let p = choose|p: Seq<usize>|
        {
            &&& #[trigger] in_order(p, at.len(), less)
            &&& r@.len() == at.len()
            &&& forall|i: int|
                0 <= i < r@.len() ==> is_candidate(
                    #[trigger] r@[i],
                    *meta,
                    runtimes@[at[p[i] as int]],
                    vram_mb,
                )
        };
    lemma_takes(rt, *meta);
    lemma_planned(*q, spills(rt));
    let k = (q.ctx / 2048) as int;
    assert(e == at_step(*meta, spills(rt), vram_mb, k));
    law_max_ctx_is_largest(*meta, spills(rt), vram_mb, k);
    lemma_climb_bounds(*meta, spills(rt), vram_mb, 0);
    assert(viable(*meta, rt, vram_mb));
    lemma_viable(*meta, runtimes@, vram_mb, n);
    let x = choose|x: int| 0 <= x < at.len() && at[x] == m;
    let y = lemma_permutation_hits(p, at.len(), x);
    assert(is_candidate(r@[y], *meta, runtimes@[at[p[y] as int]], vram_mb));
    assert(r@[y].runtime_id@ == rt.id@);
}

/// The candidate `c` is that of a runtime that takes the artifact: its context
/// is one of the planner's, and its figures are those of the estimate there.
pub open spec fn is_figured(
    c: FitCandidate,
    meta: &ModelMeta,
    rt: RuntimeManifest,
    vram_mb: u64,
    q: &FitRequest,
    e: FitBreakdown,
) -> bool {
    &&& c.runtime_id@ == rt.id@
    &&& c.display@ == rt.display@
    &&& c.status@ == match rt.status {
        RuntimeStatus::Stable => "stable"@,
        RuntimeStatus::Community => "community"@,
        RuntimeStatus::Experimental => "experimental"@,
        RuntimeStatus::Unknown => "unknown"@,
    }
    &&& takes(rt, *meta)
    &&& is_planned(*q, offloads(rt))
    &&& q.ctx == c.max_ctx
    &&& e == crate::fit::breakdown(*meta, *q, vram_mb)
    &&& e.verdict != Verdict::Oom
    &&& c.model_vram_mb == e.model_vram_mb
    &&& c.weights_ram_mb == e.weights_ram_mb
    &&& c.available_mb == vram_mb
    &&& c.headroom_mb + e.model_vram_mb == e.available_for_model_mb
    &&& c.verdict@ == if e.model_vram_mb + 600 <= e.available_for_model_mb {
        "PASS"@
    } else {
        "WARN"@
    }
}

/// Each candidate is a runtime of the list that takes the artifact, at a
/// context that fits, with the figures of the estimate at that context.
pub proof fn law_candidates_fit(
    meta: &ModelMeta,
    runtimes: &Vec<RuntimeManifest>,
    vram_mb: u64,
    r: Vec<FitCandidate>,
    i: int,
) -> (found: (int, FitRequest, FitBreakdown))
    requires
        call_ensures(candidates_for, (meta, runtimes, vram_mb), r),
        0 <= i < r@.len(),
    ensures
        0 <= found.0 < runtimes@.len(),
        is_figured(r@[i], meta, runtimes@[found.0], vram_mb, &found.1, found.2),
{
    let n = runtimes@.len() as int;
    let at = viable_upto(*meta, runtimes@, vram_mb, n);
    let less = preferred(*meta, runtimes@, vram_mb, at);
    let p = choose|p: Seq<usize>|
        {
            &&& #[trigger] in_order(p, at.len(), less)
            &&& r@.len() == at.len()
            &&& forall|i: int|
                0 <= i < r@.len() ==> is_candidate(
                    #[trigger] r@[i],
                    *meta,
                    runtimes@[at[p[i] as int]],
                    vram_mb,
                )
        };
    lemma_viable(*meta, runtimes@, vram_mb, n);
    let m = at[p[i] as int];
    let rt = runtimes@[m];
    assert(is_candidate(r@[i], *meta, rt, vram_mb));
    assert(viable(*meta, rt, vram_mb));
    lemma_takes(rt, *meta);
    let k = climb(*meta, spills(rt), vram_mb, 0);
    lemma_climb_bounds(*meta, spills(rt), vram_mb, 0);
    law_max_ctx_is_largest(*meta, spills(rt), vram_mb, k);
    let q = crate::fitplan::request_at((2048 * k) as u64, spills(rt));
    (m, q, at_step(*meta, spills(rt), vram_mb, k))
}

/// The recommended runtime reaches at least the context of every runtime that
/// takes the artifact; none is recommended only where none fits.
pub proof fn law_recommended_is_best(
    meta: &ModelMeta,
    runtimes: &Vec<RuntimeManifest>,
    vram_mb: u64,
    r: Option<FitCandidate>,
    m: int,
    q: &FitRequest,
    e: FitBreakdown,
)
    requires
        call_ensures(recommend, (meta, runtimes, vram_mb), r),
        0 <= m < runtimes@.len(),
        takes(runtimes@[m], *meta),
        is_planned(*q, offloads(runtimes@[m])),
        call_ensures(estimate, (meta, q, vram_mb), e),
        e.verdict != Verdict::Oom,
    ensures
        r is Some,
        r->0.max_ctx >= q.ctx,
{
    let cs = choose|cs: Seq<FitCandidate>|
        #![trigger crate::fitplan::are_candidates(cs, *meta, runtimes@, vram_mb)]
        crate::fitplan::are_candidates(cs, *meta, runtimes@, vram_mb) && r == if cs.len() > 0 {
            Some(cs[0])
        } else {
            None
        };
    let rt = runtimes@[m];
    let n = runtimes@.len() as int;
    let at = viable_upto(*meta, runtimes@, vram_mb, n);
    let less = preferred(*meta, runtimes@, vram_mb, at);
    let p = choose|p: Seq<usize>|
        {
            &&& #[trigger] in_order(p, at.len(), less)
            &&& cs.len() == at.len()
            &&& forall|i: int|
                0 <= i < cs.len() ==> is_candidate(
                    #[trigger] cs[i],
                    *meta,
                    runtimes@[at[p[i] as int]],
                    vram_mb,
                )
        };
    lemma_takes(rt, *meta);
    lemma_planned(*q, spills(rt));
    let k = (q.ctx / 2048) as int;
    assert(e == at_step(*meta, spills(rt), vram_mb, k));
    law_max_ctx_is_largest(*meta, spills(rt), vram_mb, k);
    lemma_climb_bounds(*meta, spills(rt), vram_mb, 0);
    lemma_viable(*meta, runtimes@, vram_mb, n);
    assert(viable(*meta, rt, vram_mb));
    let x = choose|x: int| 0 <= x < at.len() && at[x] == m;
    let y = lemma_permutation_hits(p, at.len(), x);
    assert(is_candidate(cs[y], *meta, runtimes@[at[p[y] as int]], vram_mb));
    assert(is_candidate(cs[0], *meta, runtimes@[at[p[0] as int]], vram_mb));
    if y > 0 {
        assert(less(p[0] as int, p[y] as int) || !less(p[y] as int, p[0] as int));
    }
}

} // verus!
