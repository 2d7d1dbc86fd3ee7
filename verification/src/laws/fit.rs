//! The estimate of a load: what adds up to what, and what it is held against.
use vstd::prelude::*;

use crate::fit::{estimate, FitBreakdown, FitRequest, Verdict};
use crate::model::ModelMeta;

verus! {

/// What a load takes is the sum of its parts, and the verdict holds it against
/// what the reserve leaves: out of memory where it is more, a warning where
/// less than 600 MiB are to spare.
pub proof fn law_parts_add_up(model: &ModelMeta, req: &FitRequest, available: u64, r: FitBreakdown)
    requires
        call_ensures(estimate, (model, req, available), r),
    ensures
        r.weights_mb + r.kv_mb + r.buffers_mb <= u64::MAX ==> r.model_vram_mb == r.weights_mb
            + r.kv_mb + r.buffers_mb,
        r.weights_mb + r.kv_mb + r.buffers_mb > u64::MAX ==> r.model_vram_mb == u64::MAX,
        r.overhead_mb == req.reserved_mb,
        r.available_mb == available,
        available >= req.reserved_mb ==> r.available_for_model_mb + req.reserved_mb == available,
        available < req.reserved_mb ==> r.available_for_model_mb == 0,
        r.verdict == Verdict::Oom <==> r.model_vram_mb > r.available_for_model_mb,
        r.verdict == Verdict::Pass <==> r.model_vram_mb + 600 <= r.available_for_model_mb,
{
}

/// `q` is the whole part of `n / d`.
pub open spec fn whole_part(q: int, n: int, d: int) -> bool {
    q * d <= n < (q + 1) * d
}

proof fn lemma_whole(n: int, d: int)
    requires
        n >= 0,
        d > 0,
    ensures
        whole_part(n / d, n, d),
        n / d >= 0,
{
    vstd::arithmetic::div_mod::lemma_fundamental_div_mod(n, d);
    vstd::arithmetic::div_mod::lemma_div_pos_is_pos(n, d);
    let q = n / d;
    let m = n % d;
    assert(n == d * q + m && 0 <= m < d);
    assert(q * d <= n < (q + 1) * d) by (nonlinear_arith)
        requires
            n == d * q + m,
            0 <= m < d,
    ;
}

/// The KV cache holds keys and values for every token, cached layer and
/// embedding component, each as wide as was asked for: so many whole MiB.
pub proof fn law_kv_cache(
    model: &ModelMeta,
    req: &FitRequest,
    available: u64,
    r: FitBreakdown,
    layers: u64,
    embd: u64,
)
    requires
        call_ensures(estimate, (model, req, available), r),
        req.kv_layers == Some(layers) || (req.kv_layers is None && model.n_layers == Some(layers)),
        model.n_embd == Some(embd),
        req.ctx * layers * embd <= u64::MAX,
        embd > 0,
    ensures
        r.kv_mb < u64::MAX ==> whole_part(
            r.kv_mb as int,
            req.ctx * layers * embd * req.kv_nano * 2,
            1_048_576_000_000_000,
        ),
        r.kv_mb == u64::MAX ==> req.ctx * layers * embd * req.kv_nano * 2 >= u64::MAX
            * 1_048_576_000_000_000,
{
    let e = req.ctx * layers;
    assert(e <= e * embd) by (nonlinear_arith)
        requires
            e >= 0,
            embd >= 1,
    ;
    assert(e >= 0) by (nonlinear_arith)
        requires
            e == req.ctx * layers,
    ;
    let n = req.ctx * layers * embd * req.kv_nano * 2;
    assert(n >= 0) by (nonlinear_arith)
        requires
            n == e * embd * req.kv_nano * 2,
            e >= 0,
    ;
    lemma_whole(n, 1_048_576_000_000_000);
}

/// What is not known of a model takes nothing in the KV cache.
pub proof fn law_unknown_shape_has_no_kv(
    model: &ModelMeta,
    req: &FitRequest,
    available: u64,
    r: FitBreakdown,
)
    requires
        call_ensures(estimate, (model, req, available), r),
        (req.kv_layers is None && model.n_layers is None) || model.n_embd is None || req.kv_nano
            == 0,
    ensures
        r.kv_mb == 0,
{
    let layers: u64 = match req.kv_layers {
        Some(n) => n,
        None => match model.n_layers {
            Some(n) => n,
            None => 0,
        },
    };
    if layers == 0 {
        assert(req.ctx * layers == 0) by (nonlinear_arith)
            requires
                layers == 0,
        ;
    }
    let e = crate::fit::kv_elements(*model, *req);
    assert(e == 0 || req.kv_nano == 0) by {
        let embd: u64 = match model.n_embd {
            Some(n) => n,
            None => 0,
        };
        let c = crate::fit::capped(req.ctx * layers);
        assert(c * embd == 0 || req.kv_nano == 0) by (nonlinear_arith)
            requires
                c == 0 || embd == 0 || req.kv_nano == 0,
        ;
    }
    assert(e * req.kv_nano * 2 == 0) by (nonlinear_arith)
        requires
            e == 0 || req.kv_nano == 0,
    ;
}

/// The buffers grow with context and embedding, two bytes for each, and take at
/// least 32 MiB.
pub proof fn law_buffers(model: &ModelMeta, req: &FitRequest, available: u64, r: FitBreakdown)
    requires
        call_ensures(estimate, (model, req, available), r),
    ensures
        r.buffers_mb >= 32,
        model.n_embd is None ==> r.buffers_mb == 32,
        model.n_embd is Some && 32 < r.buffers_mb < u64::MAX ==> whole_part(
            r.buffers_mb as int,
            req.ctx * 2 * model.n_embd->0,
            1_048_576,
        ),
        model.n_embd is Some && r.buffers_mb == 32 ==> req.ctx * 2 * model.n_embd->0 < 33
            * 1_048_576,
        model.n_embd is Some && r.buffers_mb == u64::MAX ==> req.ctx * 2 * model.n_embd->0
            >= u64::MAX * 1_048_576,
{
    let embd = match model.n_embd {
        Some(n) => n,
        None => 0,
    };
    let n = req.ctx * 2 * embd;
    assert(n >= 0) by (nonlinear_arith)
        requires
            n == req.ctx * 2 * embd,
    ;
    lemma_whole(n, 1_048_576);
    let q = n / 1_048_576;
    assert(n < (q + 1) * 1_048_576);
    assert(q * 1_048_576 <= n);
}

/// Without offload the asked part of the weights is on the GPU, and nothing in
/// RAM. With offload a tenth of them is, but at least 512 MiB, and the rest is
/// in RAM: together all of them.
pub proof fn law_weights(model: &ModelMeta, req: &FitRequest, available: u64, r: FitBreakdown)
    requires
        call_ensures(estimate, (model, req, available), r),
    ensures
        !req.offload ==> r.weights_ram_mb == 0,
        !req.offload && r.weights_mb < u64::MAX ==> whole_part(
            r.weights_mb as int,
            model.weight_size * req.ngl_nano,
            1_048_576_000_000_000,
        ),
        req.offload ==> r.weights_mb >= 512,
        req.offload && r.weights_mb > 512 ==> whole_part(
            r.weights_mb as int,
            model.weight_size as int,
            10_485_760,
        ),
        req.offload && r.weights_mb == 512 ==> model.weight_size < 513 * 10 * 1_048_576,
        req.offload && model.weight_size >= 512 * 1_048_576 ==> whole_part(
            r.weights_mb + r.weights_ram_mb,
            model.weight_size as int,
            1_048_576,
        ),
        req.offload && model.weight_size < 512 * 1_048_576 ==> r.weights_ram_mb == 0,
{
    let n = model.weight_size * req.ngl_nano;
    assert(n >= 0) by (nonlinear_arith)
        requires
            n == model.weight_size * req.ngl_nano,
    ;
    lemma_whole(n, 1_048_576_000_000_000);
    lemma_whole(model.weight_size as int, 1_048_576);
    lemma_whole(model.weight_size as int, 10_485_760);
}

/// A model that is wholly on the GPU takes all of its weights.
pub proof fn law_all_layers_take_all_weights(
    model: &ModelMeta,
    req: &FitRequest,
    available: u64,
    r: FitBreakdown,
)
    requires
        call_ensures(estimate, (model, req, available), r),
        !req.offload,
        req.ngl_nano == 1_000_000_000,
    ensures
        whole_part(r.weights_mb as int, model.weight_size as int, 1_048_576),
{
    law_weights(model, req, available, r);
    let n = model.weight_size * req.ngl_nano;
    assert(n == model.weight_size * 1_000_000_000);
    let q = r.weights_mb as int;
    lemma_whole(n, 1_048_576_000_000_000);
    assert(n / 1_048_576_000_000_000 <= u64::MAX);
}

/// A larger context, a wider KV element or more memory kept back never takes a
/// load further from running out of memory.
pub proof fn law_more_never_takes_less(
    model: &ModelMeta,
    a: &FitRequest,
    b: &FitRequest,
    available: u64,
    less_available: u64,
    ra: FitBreakdown,
    rb: FitBreakdown,
)
    requires
        call_ensures(estimate, (model, a, available), ra),
        call_ensures(estimate, (model, b, less_available), rb),
        a.ctx <= b.ctx,
        a.kv_nano <= b.kv_nano,
        a.ngl_nano <= b.ngl_nano,
        a.kv_layers == b.kv_layers,
        a.offload == b.offload,
        a.reserved_mb <= b.reserved_mb,
        less_available <= available,
    ensures
        ra.kv_mb <= rb.kv_mb,
        ra.weights_mb <= rb.weights_mb,
        ra.buffers_mb <= rb.buffers_mb,
        ra.model_vram_mb <= rb.model_vram_mb,
        ra.verdict == Verdict::Oom ==> rb.verdict == Verdict::Oom,
        rb.verdict == Verdict::Pass ==> ra.verdict == Verdict::Pass,
{
    let layers: u64 = match a.kv_layers {
        Some(n) => n,
        None => match model.n_layers {
            Some(n) => n,
            None => 0,
        },
    };
    let embd: u64 = match model.n_embd {
        Some(n) => n,
        None => 0,
    };
    lemma_mul(a.ctx as int, b.ctx as int, layers as int, layers as int);
    let ca = crate::fit::capped(a.ctx * layers);
    let cb = crate::fit::capped(b.ctx * layers);
    lemma_mul(ca as int, cb as int, embd as int, embd as int);
    let ea = crate::fit::kv_elements(*model, *a);
    let eb = crate::fit::kv_elements(*model, *b);
    assert(ea <= eb);
    lemma_mul(ea as int, eb as int, a.kv_nano as int, b.kv_nano as int);
    vstd::arithmetic::div_mod::lemma_div_is_ordered(
        ea * a.kv_nano * 2,
        eb * b.kv_nano * 2,
        1_048_576_000_000_000,
    );
    lemma_mul(a.ctx * 2, b.ctx * 2, embd as int, embd as int);
    vstd::arithmetic::div_mod::lemma_div_is_ordered(
        a.ctx * 2 * embd,
        b.ctx * 2 * embd,
        1_048_576,
    );
    lemma_mul(
        model.weight_size as int,
        model.weight_size as int,
        a.ngl_nano as int,
        b.ngl_nano as int,
    );
    vstd::arithmetic::div_mod::lemma_div_is_ordered(
        model.weight_size * a.ngl_nano,
        model.weight_size * b.ngl_nano,
        1_048_576_000_000_000,
    );
}

proof fn lemma_mul(a: int, b: int, c: int, d: int)
    requires
        0 <= a <= b,
        0 <= c <= d,
    ensures
        0 <= a * c <= b * d,
{
    assert(0 <= a * c <= b * d) by (nonlinear_arith)
        requires
            0 <= a <= b,
            0 <= c <= d,
    ;
}

} // verus!
