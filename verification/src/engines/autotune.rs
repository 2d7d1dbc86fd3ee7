//! Autotune: sweeps configurations on a test port and finds the best.
use vstd::prelude::*;

use crate::measure::Measure;
use crate::profile::Profile;
use crate::text::{opt_text, owned};

verus! {

/// What is swept.
#[derive(Debug, Clone, PartialEq)]
pub struct AutotuneParams {
    /// Contexts that are tried after those of the profile's ladder.
    pub ctx_values: Vec<u32>,
    pub ngl_values: Vec<u32>,
    pub ubatch_values: Vec<u32>,
    pub runs: u32,
    pub max_tokens: u32,
    pub boot_timeout_ms: u64,
    pub generation_timeout_ms: u64,
}

/// What is optimised.
#[derive(Debug, Clone, Copy, PartialEq, Eq, Structural)]
pub enum AutotuneObjective {
    Throughput,
    ContextFirst,
    MinNGL,
    Balanced,
}

/// One configuration of a sweep.
#[derive(Debug, Clone, Copy, PartialEq, Eq, Structural)]
pub struct SweepPoint {
    pub ctx: u32,
    pub ngl: u32,
    pub ubatch: u32,
}

/// One measured configuration.
#[derive(Debug, Clone, PartialEq)]
pub struct AutotuneTrial {
    pub ctx: u32,
    pub ngl: u32,
    pub ubatch: u32,
    pub tok_s: Option<Measure>,
    pub ctx_actual: u32,
    pub wall_ms: u64,
    /// `RAN`, or the word for the failure.
    pub verdict: String,
    pub error: Option<String>,
}

/// The contexts of a sweep: those of the profile's ladder, then the others.
pub open spec fn sweep_ctx(p: Profile, params: AutotuneParams) -> Seq<u32> {
    p.ctx_ladder@ + params.ctx_values@
}

fn contexts(p: &Profile, params: &AutotuneParams) -> (r: Vec<u32>)
    ensures
        r@ == sweep_ctx(*p, *params),
{
    let mut r: Vec<u32> = Vec::new();
    let mut i: usize = 0;
    while i < p.ctx_ladder.len()
        invariant
            i <= p.ctx_ladder@.len(),
            r@ == p.ctx_ladder@.take(i as int),
        decreases p.ctx_ladder@.len() - i,
    {
        r.push(p.ctx_ladder[i]);
        assert(p.ctx_ladder@.take(i + 1) =~= r@);
        i = i + 1;
    }
    assert(r@ =~= p.ctx_ladder@ + params.ctx_values@.take(0));
    i = 0;
    while i < params.ctx_values.len()
        invariant
            i <= params.ctx_values@.len(),
            r@ == p.ctx_ladder@ + params.ctx_values@.take(i as int),
        decreases params.ctx_values@.len() - i,
    {
        r.push(params.ctx_values[i]);
        assert(r@ =~= p.ctx_ladder@ + params.ctx_values@.take(i + 1));
        i = i + 1;
    }
    assert(params.ctx_values@.take(i as int) =~= params.ctx_values@);
    r
}

/// The combinations of the first `n` of `a` with all of `b` and `c`.
pub open spec fn sweep_upto(a: Seq<u32>, b: Seq<u32>, c: Seq<u32>, n: int) -> Seq<SweepPoint>
    decreases n,
{
    if n <= 0 {
        Seq::empty()
    } else {
        sweep_upto(a, b, c, n - 1) + layers_upto(a[n - 1], b, c, b.len() as int)
    }
}

/// The combinations of `x` and the first `n` of `b` with all of `c`.
pub open spec fn layers_upto(x: u32, b: Seq<u32>, c: Seq<u32>, n: int) -> Seq<SweepPoint>
    decreases n,
{
    if n <= 0 {
        Seq::empty()
    } else {
        layers_upto(x, b, c, n - 1) + Seq::new(
            c.len(),
            |k: int| SweepPoint { ctx: x, ngl: b[n - 1], ubatch: c[k] },
        )
    }
}

/// The configurations of a sweep: every context with every number of GPU
/// layers with every batch size, in that order.
pub fn sweep(profile: &Profile, params: &AutotuneParams) -> (r: Vec<SweepPoint>)
    ensures
        r@ == sweep_upto(
            sweep_ctx(*profile, *params),
            params.ngl_values@,
            params.ubatch_values@,
            sweep_ctx(*profile, *params).len() as int,
        ),
{
    let ctxs = contexts(profile, params);
    let ghost a = ctxs@;
    let ghost b = params.ngl_values@;
    let ghost c = params.ubatch_values@;
    let mut r: Vec<SweepPoint> = Vec::new();
    let mut i: usize = 0;
    while i < ctxs.len()
        invariant
            a == ctxs@,
            b == params.ngl_values@,
            c == params.ubatch_values@,
            i <= ctxs@.len(),
            r@ == sweep_upto(a, b, c, i as int),
        decreases ctxs@.len() - i,
    {
        let ghost base = r@;
        let x = ctxs[i];
        let mut j: usize = 0;
        assert(base + layers_upto(x, b, c, 0) =~= base);
        while j < params.ngl_values.len()
            invariant
                b == params.ngl_values@,
                c == params.ubatch_values@,
                j <= params.ngl_values@.len(),
                r@ == base + layers_upto(x, b, c, j as int),
            decreases params.ngl_values@.len() - j,
        {
            let ghost done = r@;
            let y = params.ngl_values[j];
            let ghost mine = Seq::new(
                c.len(),
                |k: int| SweepPoint { ctx: x, ngl: b[j as int], ubatch: c[k] },
            );
            let mut k: usize = 0;
            assert(done + mine.take(0) =~= done);
            while k < params.ubatch_values.len()
                invariant
                    b == params.ngl_values@,
                    c == params.ubatch_values@,
                    j < b.len(),
                    y == b[j as int],
                    mine == Seq::new(
                        c.len(),
                        |k: int| SweepPoint { ctx: x, ngl: b[j as int], ubatch: c[k] },
                    ),
                    k <= params.ubatch_values@.len(),
                    r@ == done + mine.take(k as int),
                decreases params.ubatch_values@.len() - k,
            {
                r.push(SweepPoint { ctx: x, ngl: y, ubatch: params.ubatch_values[k] });
                assert(done + mine.take(k + 1) =~= (done + mine.take(k as int)).push(
                    mine[k as int],
                ));
                k = k + 1;
            }
            assert(mine.take(k as int) =~= mine);
            assert(base + layers_upto(x, b, c, j + 1) =~= done + mine);
            j = j + 1;
        }
        i = i + 1;
    }
    r
}

proof fn lemma_layers_len(x: u32, b: Seq<u32>, c: Seq<u32>, n: int)
    requires
        0 <= n <= b.len(),
    ensures
        layers_upto(x, b, c, n).len() == n * c.len(),
    decreases n,
{
    if n > 0 {
        lemma_layers_len(x, b, c, n - 1);
        assert((n - 1) * c.len() + c.len() == n * c.len()) by (nonlinear_arith);
    } else {
        assert(0 * c.len() == 0) by (nonlinear_arith);
    }
}

/// A sweep has as many configurations as there are combinations.
pub proof fn law_sweep_size(a: Seq<u32>, b: Seq<u32>, c: Seq<u32>, n: int)
    requires
        0 <= n <= a.len(),
    ensures
        sweep_upto(a, b, c, n).len() == n * (b.len() * c.len()),
    decreases n,
{
    if n > 0 {
        law_sweep_size(a, b, c, n - 1);
        lemma_layers_len(a[n - 1], b, c, b.len() as int);
        assert((n - 1) * (b.len() * c.len()) + b.len() * c.len() == n * (b.len() * c.len()))
            by (nonlinear_arith);
    } else {
        assert(0 * (b.len() * c.len()) == 0) by (nonlinear_arith);
    }
}

/// The record of one configuration of a sweep. `outcome` is the speed that it
/// reported, or a word and a reason.
pub fn sweep_trial(
    pt: SweepPoint,
    wall_ms: u64,
    outcome: Result<Option<Measure>, (String, String)>,
) -> (r: AutotuneTrial)
    ensures
        r.ctx == pt.ctx,
        r.ngl == pt.ngl,
        r.ubatch == pt.ubatch,
        r.ctx_actual == pt.ctx,
        r.wall_ms == wall_ms,
        match outcome {
            Ok(tps) => r.tok_s == tps && r.verdict@ == "RAN"@ && r.error is None,
            Err((v, s)) => r.tok_s is None && r.verdict@ == v@ && opt_text(r.error) == Some(s@),
        },
{
    match outcome {
        Ok(tps) => AutotuneTrial {
            ctx: pt.ctx,
            ngl: pt.ngl,
            ubatch: pt.ubatch,
            tok_s: tps,
            ctx_actual: pt.ctx,
            wall_ms,
            verdict: owned("RAN"),
            error: None,
        },
        Err((v, s)) => AutotuneTrial {
            ctx: pt.ctx,
            ngl: pt.ngl,
            ubatch: pt.ubatch,
            tok_s: None,
            ctx_actual: pt.ctx,
            wall_ms,
            verdict: v,
            error: Some(s),
        },
    }
}

/// The position of the best score: none is higher, and of equals the last.
pub open spec fn is_best(scores: Seq<Measure>, b: int) -> bool {
    &&& 0 <= b < scores.len()
    &&& forall|i: int|
        0 <= i < scores.len() ==> (#[trigger] scores[i]).total_rank() <= scores[b].total_rank()
    &&& forall|i: int|
        b < i < scores.len() ==> (#[trigger] scores[i]).total_rank() < scores[b].total_rank()
}

/// The trial with the best score. `scores` holds the score of each trial.
pub fn best_trial(scores: &Vec<Measure>) -> (r: Option<usize>)
    ensures
        match r {
            Some(b) => is_best(scores@, b as int),
            None => scores@.len() == 0,
        },
{
    if scores.len() == 0 {
        return None;
    }
    let mut best: usize = 0;
    let mut i: usize = 1;
    while i < scores.len()
        invariant
            best < i <= scores@.len(),
            forall|k: int|
                0 <= k < i ==> (#[trigger] scores@[k]).total_rank() <= scores@[best as int].total_rank(),
            forall|k: int|
                best < k < i ==> (#[trigger] scores@[k]).total_rank()
                    < scores@[best as int].total_rank(),
        decreases scores@.len() - i,
    {
        if !scores[i].is_totally_below(scores[best]) {
            best = i;
        }
        i = i + 1;
    }
    Some(best)
}

} // verus!
