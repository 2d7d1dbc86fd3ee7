//! VRAM fit estimator: where the memory of a load goes, and whether it fits.
//!
//! Fractions are counted in billionths: of a byte for the width of a KV
//! element, of the weights for the part that is kept on the GPU.
use vstd::prelude::*;

use crate::model::ModelMeta;
use crate::text::{lines, parse_number, parse_number_of, str_lines, str_trim, texts, trim};

verus! {

/// Bytes of a MiB.
pub const MIB: u64 = 1_048_576;

#[derive(Debug, Clone, Copy, PartialEq, Eq, Structural)]
pub struct FitRequest {
    /// Target context window.
    pub ctx: u64,
    /// Billionths of a byte per KV element (500,000,000 = q4_0).
    pub kv_nano: u64,
    /// Billionths of the weights that are kept on the GPU (1,000,000,000 = all).
    pub ngl_nano: u64,
    /// Layers whose KV is cached; `None` means all.
    pub kv_layers: Option<u64>,
    /// Memory that is reserved for the desktop.
    pub reserved_mb: u64,
    /// The weights are split: a working set on the GPU, the rest in RAM.
    pub offload: bool,
}

impl Default for FitRequest {
    fn default() -> (r: Self)
        ensures
            r.ctx == 32768,
            r.kv_nano == 500_000_000,
            r.ngl_nano == 1_000_000_000,
            r.kv_layers is None,
            r.reserved_mb == 1600,
            !r.offload,
    {
        FitRequest {
            ctx: 32768,
            kv_nano: 500_000_000,
            ngl_nano: 1_000_000_000,
            kv_layers: None,
            reserved_mb: 1600,
            offload: false,
        }
    }
}

#[derive(Debug, Clone, Copy, PartialEq, Eq, Structural)]
pub struct FitBreakdown {
    pub weights_mb: u64,
    pub kv_mb: u64,
    pub buffers_mb: u64,
    /// Reserved for the desktop.
    pub overhead_mb: u64,
    /// Weights, KV and buffers: what the engine maps to VRAM.
    pub model_vram_mb: u64,
    /// Weights that were spilled to RAM.
    pub weights_ram_mb: u64,
    pub available_mb: u64,
    /// What the engine may use.
    pub available_for_model_mb: u64,
    pub verdict: Verdict,
}

#[derive(Debug, Clone, Copy, PartialEq, Eq, Structural)]
pub enum Verdict {
    Pass,
    Warn,
    Oom,
}

impl Verdict {
    pub open spec fn spec_tag(self) -> Seq<char> {
        match self {
            Verdict::Pass => "PASS"@,
            Verdict::Warn => "WARN"@,
            Verdict::Oom => "OOM"@,
        }
    }

    pub fn tag(&self) -> (r: &'static str)
        ensures
            r@ == self.spec_tag(),
    {
        match self {
            Verdict::Pass => "PASS",
            Verdict::Warn => "WARN",
            Verdict::Oom => "OOM",
        }
    }
}

/// The number, or the largest of its type where it is larger.
pub open spec fn capped(n: int) -> u64 {
    if n > u64::MAX {
        u64::MAX
    } else {
        n as u64
    }
}

/// `n` less `m`, not below zero.
pub open spec fn less(n: u64, m: u64) -> u64 {
    if n >= m {
        (n - m) as u64
    } else {
        0
    }
}

/// The larger of two numbers.
pub open spec fn larger(n: u64, m: u64) -> u64 {
    if n >= m {
        n
    } else {
        m
    }
}

/// The KV elements of a context: one per token, cached layer and embedding
/// component.
pub open spec fn kv_elements(model: ModelMeta, req: FitRequest) -> u64 {
    let layers = match req.kv_layers {
        Some(n) => n,
        None => match model.n_layers {
            Some(n) => n,
            None => 0,
        },
    };
    let embd = match model.n_embd {
        Some(n) => n,
        None => 0,
    };
    capped(capped(req.ctx * layers) * embd)
}

/// MiB of the keys and the values.
pub open spec fn kv_mb(model: ModelMeta, req: FitRequest) -> u64 {
    capped(kv_elements(model, req) * req.kv_nano * 2 / (1_000_000_000 * MIB))
}

/// MiB of the activation buffers, at least 32.
pub open spec fn buffers_mb(model: ModelMeta, req: FitRequest) -> u64 {
    let embd = match model.n_embd {
        Some(n) => n,
        None => 0,
    };
    larger(capped(req.ctx * 2 * embd / MIB as int), 32)
}

/// MiB of all weights.
pub open spec fn total_weights_mb(model: ModelMeta) -> u64 {
    model.weight_size / MIB
}

/// MiB of the weights that stay on the GPU: a tenth, at least 512, when they
/// are offloaded; else the requested part.
pub open spec fn weights_mb(model: ModelMeta, req: FitRequest) -> u64 {
    if req.offload {
        larger(total_weights_mb(model) / 10, 512)
    } else {
        capped(model.weight_size * req.ngl_nano / (1_000_000_000 * MIB))
    }
}

/// MiB that the engine maps to VRAM.
pub open spec fn model_vram_mb(model: ModelMeta, req: FitRequest) -> u64 {
    capped(
        capped(weights_mb(model, req) + kv_mb(model, req)) + buffers_mb(model, req),
    )
}

/// Whether a load of `vram` MiB fits `room` MiB; less than 600 MiB to spare is
/// worth a warning.
pub open spec fn verdict_of(vram: u64, room: u64) -> Verdict {
    if vram > room {
        Verdict::Oom
    } else if room - vram < 600 {
        Verdict::Warn
    } else {
        Verdict::Pass
    }
}

/// The breakdown of a load.
pub open spec fn breakdown(model: ModelMeta, req: FitRequest, available_mb: u64) -> FitBreakdown {
    let weights = weights_mb(model, req);
    let vram = model_vram_mb(model, req);
    let room = less(available_mb, req.reserved_mb);
    FitBreakdown {
        weights_mb: weights,
        kv_mb: kv_mb(model, req),
        buffers_mb: buffers_mb(model, req),
        overhead_mb: req.reserved_mb,
        model_vram_mb: vram,
        weights_ram_mb: if req.offload {
            less(total_weights_mb(model), weights)
        } else {
            0
        },
        available_mb,
        available_for_model_mb: room,
        verdict: verdict_of(vram, room),
    }
}

fn cap(n: u128) -> (r: u64)
    ensures
        r == capped(n as int),
{
    if n > 0xffff_ffff_ffff_ffff {
        0xffff_ffff_ffff_ffff
    } else {
        n as u64
    }
}

/// The product of two numbers, without loss.
fn wide(a: u64, b: u64) -> (r: u128)
    ensures
        r == a * b,
        r <= 0xffff_ffff_ffff_ffff * 0xffff_ffff_ffff_ffff,
{
    assert(a * b <= 0xffff_ffff_ffff_ffff * 0xffff_ffff_ffff_ffff) by (nonlinear_arith)
        requires
            a <= 0xffff_ffff_ffff_ffff,
            b <= 0xffff_ffff_ffff_ffff,
    ;
    (a as u128) * (b as u128)
}

/// A product halved before it could overflow: `a * 2 * b / d` for an even `d`.
proof fn lemma_halve(p: int, half: int)
    requires
        p >= 0,
        half > 0,
    ensures
        p * 2 / (2 * half) == p / half,
{
    vstd::arithmetic::div_mod::lemma_truncate_middle(p, half, 2);
    assert(p * 2 / (2 * half) == p / half) by (nonlinear_arith)
        requires
            p >= 0,
            half > 0,
    {
        let q = p / half;
        let r = p % half;
        assert(p == half * q + r);
        assert(p * 2 == (2 * half) * q + 2 * r);
        assert(0 <= 2 * r < 2 * half);
        vstd::arithmetic::div_mod::lemma_fundamental_div_mod_converse(p * 2, 2 * half, q, 2 * r);
    }
}

/// Estimates a load.
pub fn estimate(model: &ModelMeta, req: &FitRequest, available_mb: u64) -> (r: FitBreakdown)
    ensures
        r == breakdown(*model, *req, available_mb),
{
    let layers: u64 = match req.kv_layers {
        Some(n) => n,
        None => match model.n_layers {
            Some(n) => n,
            None => 0,
        },
    };
    let embd: u64 = match model.n_embd {
        Some(n) => n,
        None => 0,
    };
    let elements = cap(wide(cap(wide(req.ctx, layers)), embd));
    let kv_product = wide(elements, req.kv_nano);
    let kv = cap(kv_product / 524_288_000_000_000);
    proof {
        lemma_halve(kv_product as int, 524_288_000_000_000);
    }
    let buffer_product = wide(req.ctx, embd);
    let buffer_size = cap(buffer_product / 524_288);
    proof {
        lemma_halve(buffer_product as int, 524_288);
        assert(req.ctx * 2 * embd == buffer_product * 2) by (nonlinear_arith)
            requires
                buffer_product == req.ctx * embd,
        ;
    }
    let buffers: u64 = if buffer_size >= 32 {
        buffer_size
    } else {
        32
    };
    let total: u64 = model.weight_size / MIB;
    let (weights, ram): (u64, u64) = if req.offload {
        let tenth: u64 = total / 10;
        let on_gpu: u64 = if tenth >= 512 {
            tenth
        } else {
            512
        };
        (on_gpu, total.saturating_sub(on_gpu))
    } else {
        (cap(wide(model.weight_size, req.ngl_nano) / 1_048_576_000_000_000), 0)
    };
    let vram: u64 = weights.saturating_add(kv).saturating_add(buffers);
    let room: u64 = available_mb.saturating_sub(req.reserved_mb);
    let verdict = if vram > room {
        Verdict::Oom
    } else if room - vram < 600 {
        Verdict::Warn
    } else {
        Verdict::Pass
    };
    FitBreakdown {
        weights_mb: weights,
        kv_mb: kv,
        buffers_mb: buffers,
        overhead_mb: req.reserved_mb,
        model_vram_mb: vram,
        weights_ram_mb: ram,
        available_mb,
        available_for_model_mb: room,
        verdict,
    }
}

/// The total VRAM that the report of the GPU tool names, in MiB: the number on
/// its first line.
pub open spec fn reported_vram_mb(report: Seq<char>) -> Option<nat> {
    let ls = lines(report);
    if ls.len() > 0 {
        parse_number(trim(ls[0]), u64::MAX as nat)
    } else {
        None
    }
}

/// The total VRAM of the primary GPU, from the report of the GPU tool; the
/// fallback where there is no report or it names no number.
pub fn available_vram_mb(report: Option<&str>, fallback_mb: u64) -> (r: u64)
    ensures
        r == match report {
            Some(s) => match reported_vram_mb(s@) {
                Some(v) => v as u64,
                None => fallback_mb,
            },
            None => fallback_mb,
        },
{
    match report {
        Some(s) => {
            let ls = str_lines(s);
            assert(texts(ls@) == lines(s@));
            if ls.len() > 0 {
                assert(texts(ls@)[0] == ls@[0]@);
                match parse_number_of(str_trim(ls[0].as_str()).as_str(), 0xffff_ffff_ffff_ffff) {
                    Some(v) => v,
                    None => fallback_mb,
                }
            } else {
                fallback_mb
            }
        },
        None => fallback_mb,
    }
}

} // verus!
