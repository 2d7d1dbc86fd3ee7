//! What a profile launches: arguments, environment, units and programs.
use vstd::prelude::*;

use crate::engines::unit::{
    args_for, build_args, display_for, env_for, llama_args, llama_flags, opt_decimal, opt_flag,
    render_unit, shell_join, unit_name_for,
};
use crate::model::ModelFormat;
use crate::params::{ascending, law_value_after_set, pair_texts, value_of, with_values, Params};
use crate::profile::{Engine, Profile};
use crate::runtime::{
    all_candidates, argv_templates, candidate_paths, defaults_upto, find_bin, first_file,
    first_resolved, launch_pairs, launch_values, law_override_wins, substituted, ConfigParam,
    ModelSourceSer, RuntimeManifest,
};
use crate::text::{contains, decimal, has_prefix, opt_str, opt_text, replace, texts};

verus! {

/// The arguments hold a flag with its value behind it.
pub open spec fn passes(args: Seq<Seq<char>>, flag: Seq<char>, value: Seq<char>) -> bool {
    exists|i: int| 0 <= i < args.len() - 1 && #[trigger] args[i] == flag && args[i + 1] == value
}

/// How many arguments an optional value takes.
pub open spec fn two_if(present: bool) -> int {
    if present {
        2
    } else {
        0
    }
}

proof fn lemma_passes_left(a: Seq<Seq<char>>, b: Seq<Seq<char>>, flag: Seq<char>, value: Seq<char>)
    requires
        passes(a, flag, value),
    ensures
        passes(a + b, flag, value),
{
    let i = choose|i: int| 0 <= i < a.len() - 1 && #[trigger] a[i] == flag && a[i + 1] == value;
    assert((a + b)[i] == flag && (a + b)[i + 1] == value);
}

proof fn lemma_passes_right(
    a: Seq<Seq<char>>,
    b: Seq<Seq<char>>,
    flag: Seq<char>,
    value: Seq<char>,
)
    requires
        passes(b, flag, value),
    ensures
        passes(a + b, flag, value),
{
    let i = choose|i: int| 0 <= i < b.len() - 1 && #[trigger] b[i] == flag && b[i + 1] == value;
    assert((a + b)[a.len() + i] == flag && (a + b)[a.len() + i + 1] == value);
}

proof fn lemma_part(
    a: Seq<Seq<char>>,
    b: Seq<Seq<char>>,
    tail: Seq<Seq<char>>,
    t: Seq<Seq<char>>,
)
    requires
        t == a + b + tail,
    ensures
        t == a + (b + tail),
        forall|flag: Seq<char>, value: Seq<char>|
            #[trigger] passes(b, flag, value) ==> passes(t, flag, value),
{
    assert(t =~= a + (b + tail));
    assert forall|flag: Seq<char>, value: Seq<char>| #[trigger] passes(b, flag, value) implies passes(
        t,
        flag,
        value,
    ) by {
        lemma_passes_right(a, b, flag, value);
        lemma_passes_left(a + b, tail, flag, value);
    }
}

proof fn lemma_opt_flag(flag: Seq<char>, v: Option<Seq<char>>)
    ensures
        v is Some ==> passes(opt_flag(flag, v), flag, v->0),
        opt_flag(flag, v).len() == two_if(v is Some),
{
    if v is Some {
        let o = opt_flag(flag, v);
        assert(o[0] == flag && o[1] == v->0);
    }
}

proof fn lemma_head(p: Profile, rest: Seq<Seq<char>>, t: Seq<Seq<char>>)
    requires
        t == llama_flags(p) + rest,
    ensures
        llama_flags(p).len() == 22,
        passes(t, "-m"@, p.model@),
        passes(t, "--alias"@, p.alias@),
        passes(t, "--ctx-size"@, decimal(p.ctx_size as nat)),
        passes(t, "--n-gpu-layers"@, decimal(p.n_gpu_layers as nat)),
        passes(t, "--ubatch-size"@, decimal(p.ubatch_size as nat)),
        passes(t, "--parallel"@, decimal(p.parallel as nat)),
        passes(t, "--temp"@, p.temperature@),
        passes(t, "--top-p"@, p.top_p@),
        passes(t, "--top-k"@, decimal(p.top_k as nat)),
        passes(t, "--port"@, decimal(p.port as nat)),
        passes(t, "--host"@, p.host@),
{
    let h = llama_flags(p);
    assert(h[0] == "-m"@ && h[1] == p.model@);
    lemma_passes_left(h, rest, "-m"@, p.model@);
    assert(h[2] == "--alias"@ && h[3] == p.alias@);
    lemma_passes_left(h, rest, "--alias"@, p.alias@);
    assert(h[4] == "--ctx-size"@ && h[5] == decimal(p.ctx_size as nat));
    lemma_passes_left(h, rest, "--ctx-size"@, decimal(p.ctx_size as nat));
    assert(h[6] == "--n-gpu-layers"@ && h[7] == decimal(p.n_gpu_layers as nat));
    lemma_passes_left(h, rest, "--n-gpu-layers"@, decimal(p.n_gpu_layers as nat));
    assert(h[8] == "--ubatch-size"@ && h[9] == decimal(p.ubatch_size as nat));
    lemma_passes_left(h, rest, "--ubatch-size"@, decimal(p.ubatch_size as nat));
    assert(h[10] == "--parallel"@ && h[11] == decimal(p.parallel as nat));
    lemma_passes_left(h, rest, "--parallel"@, decimal(p.parallel as nat));
    assert(h[12] == "--temp"@ && h[13] == p.temperature@);
    lemma_passes_left(h, rest, "--temp"@, p.temperature@);
    assert(h[14] == "--top-p"@ && h[15] == p.top_p@);
    lemma_passes_left(h, rest, "--top-p"@, p.top_p@);
    assert(h[16] == "--top-k"@ && h[17] == decimal(p.top_k as nat));
    lemma_passes_left(h, rest, "--top-k"@, decimal(p.top_k as nat));
    assert(h[18] == "--port"@ && h[19] == decimal(p.port as nat));
    lemma_passes_left(h, rest, "--port"@, decimal(p.port as nat));
    assert(h[20] == "--host"@ && h[21] == p.host@);
    lemma_passes_left(h, rest, "--host"@, p.host@);
}

proof fn lemma_chain(
    s0: Seq<Seq<char>>,
    o0: Seq<Seq<char>>,
    o1: Seq<Seq<char>>,
    o2: Seq<Seq<char>>,
    o3: Seq<Seq<char>>,
    o4: Seq<Seq<char>>,
    o5: Seq<Seq<char>>,
    o6: Seq<Seq<char>>,
    o7: Seq<Seq<char>>,
    o8: Seq<Seq<char>>,
    o9: Seq<Seq<char>>,
    o10: Seq<Seq<char>>,
    t: Seq<Seq<char>>,
) -> (rest: Seq<Seq<char>>)
    requires
        t == s0 + o0 + o1 + o2 + o3 + o4 + o5 + o6 + o7 + o8 + o9 + o10,
    ensures
        t == s0 + (o0 + rest),
        t.len() == s0.len() + o0.len() + o1.len() + o2.len() + o3.len() + o4.len() + o5.len() + o6.len() + o7.len() + o8.len() + o9.len() + o10.len(),
        forall|flag: Seq<char>, value: Seq<char>|
            #[trigger] passes(o0, flag, value) ==> passes(t, flag, value),
        forall|flag: Seq<char>, value: Seq<char>|
            #[trigger] passes(o1, flag, value) ==> passes(t, flag, value),
        forall|flag: Seq<char>, value: Seq<char>|
            #[trigger] passes(o2, flag, value) ==> passes(t, flag, value),
        forall|flag: Seq<char>, value: Seq<char>|
            #[trigger] passes(o3, flag, value) ==> passes(t, flag, value),
        forall|flag: Seq<char>, value: Seq<char>|
            #[trigger] passes(o4, flag, value) ==> passes(t, flag, value),
        forall|flag: Seq<char>, value: Seq<char>|
            #[trigger] passes(o5, flag, value) ==> passes(t, flag, value),
        forall|flag: Seq<char>, value: Seq<char>|
            #[trigger] passes(o6, flag, value) ==> passes(t, flag, value),
        forall|flag: Seq<char>, value: Seq<char>|
            #[trigger] passes(o7, flag, value) ==> passes(t, flag, value),
        forall|flag: Seq<char>, value: Seq<char>|
            #[trigger] passes(o8, flag, value) ==> passes(t, flag, value),
        forall|flag: Seq<char>, value: Seq<char>|
            #[trigger] passes(o9, flag, value) ==> passes(t, flag, value),
        forall|flag: Seq<char>, value: Seq<char>|
            #[trigger] passes(o10, flag, value) ==> passes(t, flag, value),
{
    let s1 = s0 + o0;
    let s2 = s1 + o1;
    let s3 = s2 + o2;
    let s4 = s3 + o3;
    let s5 = s4 + o4;
    let s6 = s5 + o5;
    let s7 = s6 + o6;
    let s8 = s7 + o7;
    let s9 = s8 + o8;
    let s10 = s9 + o9;
    let s11 = s10 + o10;
    assert(t == s11);
    let t10 = Seq::<Seq<char>>::empty();
    assert(t =~= s10 + o10 + t10);
    lemma_part(s10, o10, t10, t);
    let t9 = o10 + t10;
    assert(t == s9 + o9 + t9);
    lemma_part(s9, o9, t9, t);
    let t8 = o9 + t9;
    assert(t == s8 + o8 + t8);
    lemma_part(s8, o8, t8, t);
    let t7 = o8 + t8;
    assert(t == s7 + o7 + t7);
    lemma_part(s7, o7, t7, t);
    let t6 = o7 + t7;
    assert(t == s6 + o6 + t6);
    lemma_part(s6, o6, t6, t);
    let t5 = o6 + t6;
    assert(t == s5 + o5 + t5);
    lemma_part(s5, o5, t5, t);
    let t4 = o5 + t5;
    assert(t == s4 + o4 + t4);
    lemma_part(s4, o4, t4, t);
    let t3 = o4 + t4;
    assert(t == s3 + o3 + t3);
    lemma_part(s3, o3, t3, t);
    let t2 = o3 + t3;
    assert(t == s2 + o2 + t2);
    lemma_part(s2, o2, t2, t);
    let t1 = o2 + t2;
    assert(t == s1 + o1 + t1);
    lemma_part(s1, o1, t1, t);
    let t0 = o1 + t1;
    assert(t == s0 + o0 + t0);
    lemma_part(s0, o0, t0, t);
    t0
}

proof fn lemma_llama_head(p: Profile, t: Seq<Seq<char>>)
    requires
        t == llama_args(p),
    ensures
        passes(t, "-m"@, p.model@),
        passes(t, "--alias"@, p.alias@),
        passes(t, "--ctx-size"@, decimal(p.ctx_size as nat)),
        passes(t, "--n-gpu-layers"@, decimal(p.n_gpu_layers as nat)),
        passes(t, "--ubatch-size"@, decimal(p.ubatch_size as nat)),
        passes(t, "--parallel"@, decimal(p.parallel as nat)),
        passes(t, "--temp"@, p.temperature@),
        passes(t, "--top-p"@, p.top_p@),
        passes(t, "--top-k"@, decimal(p.top_k as nat)),
        passes(t, "--port"@, decimal(p.port as nat)),
        passes(t, "--host"@, p.host@),
        p.metrics ==> t.contains("--metrics"@),
        p.flash_attn ==> passes(t, "--flash-attn"@, "on"@),
{
    let o0 = if p.metrics {
        seq!["--metrics"@]
    } else {
        Seq::empty()
    };
    let o1 = if p.flash_attn {
        seq!["--flash-attn"@, "on"@]
    } else {
        Seq::empty()
    };
    let o2 = opt_flag("--cache-type-k"@, opt_text(p.kv_cache_type_k));
    let o3 = opt_flag("--cache-type-v"@, opt_text(p.kv_cache_type_v));
    let o4 = opt_flag("--load-mode"@, opt_text(p.load_mode));
    let o5 = opt_flag("--spec-type"@, opt_text(p.spec_type));
    let o6 = opt_flag("--draft-model"@, opt_text(p.draft_model));
    let o7 = opt_flag("--reasoning"@, opt_text(p.reasoning));
    let o8 = opt_flag("--reasoning-format"@, opt_text(p.reasoning_format));
    let o9 = opt_flag("--reasoning-effort"@, opt_text(p.reasoning_effort));
    let o10 = opt_flag("--reasoning-budget"@, opt_decimal(p.reasoning_budget));
    let rest = lemma_chain(llama_flags(p), o0, o1, o2, o3, o4, o5, o6, o7, o8, o9, o10, t);
    lemma_head(p, o0 + rest, t);
    if p.metrics {
        assert((o0 + rest)[0] == "--metrics"@);
        assert(t[22] == "--metrics"@);
    }
    if p.flash_attn {
        assert(o1[0] == "--flash-attn"@ && o1[1] == "on"@);
        assert(passes(o1, "--flash-attn"@, "on"@));
    }
}

#[verifier::rlimit(40)]
proof fn lemma_llama_options(p: Profile, t: Seq<Seq<char>>)
    requires
        t == llama_args(p),
    ensures
        p.kv_cache_type_k is Some ==> passes(t, "--cache-type-k"@, (p.kv_cache_type_k->0)@),
        p.kv_cache_type_v is Some ==> passes(t, "--cache-type-v"@, (p.kv_cache_type_v->0)@),
        p.load_mode is Some ==> passes(t, "--load-mode"@, (p.load_mode->0)@),
        p.spec_type is Some ==> passes(t, "--spec-type"@, (p.spec_type->0)@),
        p.draft_model is Some ==> passes(t, "--draft-model"@, (p.draft_model->0)@),
        p.reasoning is Some ==> passes(t, "--reasoning"@, (p.reasoning->0)@),
        p.reasoning_format is Some ==> passes(t, "--reasoning-format"@, (p.reasoning_format->0)@),
        p.reasoning_effort is Some ==> passes(t, "--reasoning-effort"@, (p.reasoning_effort->0)@),
        p.reasoning_budget is Some ==> passes(
            t,
            "--reasoning-budget"@,
            decimal(p.reasoning_budget->0 as nat),
        ),
{
    let o0 = if p.metrics {
        seq!["--metrics"@]
    } else {
        Seq::empty()
    };
    let o1 = if p.flash_attn {
        seq!["--flash-attn"@, "on"@]
    } else {
        Seq::empty()
    };
    let o2 = opt_flag("--cache-type-k"@, opt_text(p.kv_cache_type_k));
    let o3 = opt_flag("--cache-type-v"@, opt_text(p.kv_cache_type_v));
    let o4 = opt_flag("--load-mode"@, opt_text(p.load_mode));
    let o5 = opt_flag("--spec-type"@, opt_text(p.spec_type));
    let o6 = opt_flag("--draft-model"@, opt_text(p.draft_model));
    let o7 = opt_flag("--reasoning"@, opt_text(p.reasoning));
    let o8 = opt_flag("--reasoning-format"@, opt_text(p.reasoning_format));
    let o9 = opt_flag("--reasoning-effort"@, opt_text(p.reasoning_effort));
    let o10 = opt_flag("--reasoning-budget"@, opt_decimal(p.reasoning_budget));
    let rest = lemma_chain(llama_flags(p), o0, o1, o2, o3, o4, o5, o6, o7, o8, o9, o10, t);
    lemma_opt_flag("--cache-type-k"@, opt_text(p.kv_cache_type_k));
    lemma_opt_flag("--cache-type-v"@, opt_text(p.kv_cache_type_v));
    lemma_opt_flag("--load-mode"@, opt_text(p.load_mode));
    lemma_opt_flag("--spec-type"@, opt_text(p.spec_type));
    lemma_opt_flag("--draft-model"@, opt_text(p.draft_model));
    lemma_opt_flag("--reasoning"@, opt_text(p.reasoning));
    lemma_opt_flag("--reasoning-format"@, opt_text(p.reasoning_format));
    lemma_opt_flag("--reasoning-effort"@, opt_text(p.reasoning_effort));
    lemma_opt_flag("--reasoning-budget"@, opt_decimal(p.reasoning_budget));
}

proof fn lemma_llama_len(p: Profile, t: Seq<Seq<char>>)
    requires
        t == llama_args(p),
    ensures
        t.len() == 22 + (if p.metrics {
            1int
        } else {
            0
        }) + two_if(p.flash_attn) + two_if(p.kv_cache_type_k is Some) + two_if(
            p.kv_cache_type_v is Some,
        ) + two_if(p.load_mode is Some) + two_if(p.spec_type is Some) + two_if(
            p.draft_model is Some,
        ) + two_if(p.reasoning is Some) + two_if(p.reasoning_format is Some) + two_if(
            p.reasoning_effort is Some,
        ) + two_if(p.reasoning_budget is Some),
{
    let o0 = if p.metrics {
        seq!["--metrics"@]
    } else {
        Seq::empty()
    };
    let o1 = if p.flash_attn {
        seq!["--flash-attn"@, "on"@]
    } else {
        Seq::empty()
    };
    let o2 = opt_flag("--cache-type-k"@, opt_text(p.kv_cache_type_k));
    let o3 = opt_flag("--cache-type-v"@, opt_text(p.kv_cache_type_v));
    let o4 = opt_flag("--load-mode"@, opt_text(p.load_mode));
    let o5 = opt_flag("--spec-type"@, opt_text(p.spec_type));
    let o6 = opt_flag("--draft-model"@, opt_text(p.draft_model));
    let o7 = opt_flag("--reasoning"@, opt_text(p.reasoning));
    let o8 = opt_flag("--reasoning-format"@, opt_text(p.reasoning_format));
    let o9 = opt_flag("--reasoning-effort"@, opt_text(p.reasoning_effort));
    let o10 = opt_flag("--reasoning-budget"@, opt_decimal(p.reasoning_budget));
    let rest = lemma_chain(llama_flags(p), o0, o1, o2, o3, o4, o5, o6, o7, o8, o9, o10, t);
    lemma_opt_flag("--cache-type-k"@, opt_text(p.kv_cache_type_k));
    lemma_opt_flag("--cache-type-v"@, opt_text(p.kv_cache_type_v));
    lemma_opt_flag("--load-mode"@, opt_text(p.load_mode));
    lemma_opt_flag("--spec-type"@, opt_text(p.spec_type));
    lemma_opt_flag("--draft-model"@, opt_text(p.draft_model));
    lemma_opt_flag("--reasoning"@, opt_text(p.reasoning));
    lemma_opt_flag("--reasoning-format"@, opt_text(p.reasoning_format));
    lemma_opt_flag("--reasoning-effort"@, opt_text(p.reasoning_effort));
    lemma_opt_flag("--reasoning-budget"@, opt_decimal(p.reasoning_budget));
    lemma_head(p, o0 + rest, t);
}

/// llama.cpp is started with the model and every number of the profile, each
/// behind its flag.
pub proof fn law_llama_flags(p: &Profile, a: Vec<String>)
    requires
        call_ensures(build_args, (p,), a),
        p.engine == Engine::LlamaCpp || p.engine == Engine::UncensoredLlamaCpp,
    ensures
        passes(texts(a@), "-m"@, p.model@),
        passes(texts(a@), "--alias"@, p.alias@),
        passes(texts(a@), "--ctx-size"@, decimal(p.ctx_size as nat)),
        passes(texts(a@), "--n-gpu-layers"@, decimal(p.n_gpu_layers as nat)),
        passes(texts(a@), "--ubatch-size"@, decimal(p.ubatch_size as nat)),
        passes(texts(a@), "--parallel"@, decimal(p.parallel as nat)),
        passes(texts(a@), "--temp"@, p.temperature@),
        passes(texts(a@), "--top-p"@, p.top_p@),
        passes(texts(a@), "--top-k"@, decimal(p.top_k as nat)),
        passes(texts(a@), "--port"@, decimal(p.port as nat)),
        passes(texts(a@), "--host"@, p.host@),
        a@.len() == 22 + (if p.metrics {
            1int
        } else {
            0
        }) + two_if(p.flash_attn) + two_if(p.kv_cache_type_k is Some) + two_if(
            p.kv_cache_type_v is Some,
        ) + two_if(p.load_mode is Some) + two_if(p.spec_type is Some) + two_if(
            p.draft_model is Some,
        ) + two_if(p.reasoning is Some) + two_if(p.reasoning_format is Some) + two_if(
            p.reasoning_effort is Some,
        ) + two_if(p.reasoning_budget is Some),
{
    lemma_llama_head(*p, texts(a@));
    lemma_llama_len(*p, texts(a@));
    assert(texts(a@).len() == a@.len());
}

/// What a profile leaves out is not passed; what it sets is, behind its flag.
pub proof fn law_llama_options(p: &Profile, a: Vec<String>)
    requires
        call_ensures(build_args, (p,), a),
        p.engine == Engine::LlamaCpp || p.engine == Engine::UncensoredLlamaCpp,
    ensures
        p.metrics ==> texts(a@).contains("--metrics"@),
        p.flash_attn ==> passes(texts(a@), "--flash-attn"@, "on"@),
        p.kv_cache_type_k is Some ==> passes(
            texts(a@),
            "--cache-type-k"@,
            (p.kv_cache_type_k->0)@,
        ),
        p.kv_cache_type_v is Some ==> passes(
            texts(a@),
            "--cache-type-v"@,
            (p.kv_cache_type_v->0)@,
        ),
        p.load_mode is Some ==> passes(texts(a@), "--load-mode"@, (p.load_mode->0)@),
        p.spec_type is Some ==> passes(texts(a@), "--spec-type"@, (p.spec_type->0)@),
        p.draft_model is Some ==> passes(texts(a@), "--draft-model"@, (p.draft_model->0)@),
        p.reasoning is Some ==> passes(texts(a@), "--reasoning"@, (p.reasoning->0)@),
        p.reasoning_format is Some ==> passes(
            texts(a@),
            "--reasoning-format"@,
            (p.reasoning_format->0)@,
        ),
        p.reasoning_effort is Some ==> passes(
            texts(a@),
            "--reasoning-effort"@,
            (p.reasoning_effort->0)@,
        ),
        p.reasoning_budget is Some ==> passes(
            texts(a@),
            "--reasoning-budget"@,
            decimal(p.reasoning_budget->0 as nat),
        ),
{
    lemma_llama_head(*p, texts(a@));
    lemma_llama_options(*p, texts(a@));
}

/// The other engines are told to serve; FreeToken is told what and where.
pub proof fn law_serving_arguments(p: &Profile, a: Vec<String>)
    requires
        call_ensures(build_args, (p,), a),
    ensures
        p.engine == Engine::Ollama ==> texts(a@) =~= seq!["serve"@],
        p.engine == Engine::FreeToken ==> {
            &&& texts(a@)[0] == "serve"@
            &&& passes(texts(a@), "--model"@, p.model@)
            &&& passes(texts(a@), "--host"@, p.host@)
            &&& passes(texts(a@), "--port"@, decimal(p.port as nat))
            &&& p.ft_backend is Some ==> passes(texts(a@), "--moe-backend"@, (p.ft_backend->0)@)
            &&& p.ft_moe_cache_size is Some ==> passes(
                texts(a@),
                "--moe-cache-size"@,
                decimal(p.ft_moe_cache_size->0 as nat),
            )
            &&& a@.len() == 7 + two_if(p.ft_backend is Some) + two_if(p.ft_moe_cache_size is Some)
        },
{
    let t = texts(a@);
    assert(t.len() == a@.len());
    if p.engine == Engine::FreeToken {
        assert(t[1] == "--model"@ && t[2] == p.model@);
        assert(t[3] == "--host"@ && t[4] == p.host@);
        assert(t[5] == "--port"@ && t[6] == decimal(p.port as nat));
        let n: int = 7 + two_if(p.ft_backend is Some);
        if p.ft_backend is Some {
            assert(t[7] == "--moe-backend"@ && t[8] == (p.ft_backend->0)@);
        }
        if p.ft_moe_cache_size is Some {
            assert(t[n] == "--moe-cache-size"@ && t[n + 1] == decimal(
                p.ft_moe_cache_size->0 as nat,
            ));
        }
    }
}

/// The environment lines of the first `n` pairs.
pub open spec fn written_env(env: Seq<(String, String)>, n: int) -> Seq<char>
    decreases n,
{
    if n <= 0 {
        Seq::empty()
    } else {
        written_env(env, n - 1) + ("Environment="@ + env[n - 1].0@ + "="@ + env[n - 1].1@ + "\n"@)
    }
}

proof fn lemma_written_env(env: Seq<(String, String)>, n: int)
    requires
        0 <= n <= env.len(),
    ensures
        written_env(env, n) == crate::engines::unit::env_lines(pair_texts(env), n),
    decreases n,
{
    if n > 0 {
        lemma_written_env(env, n - 1);
    }
}

/// The unit of a profile starts its program with its arguments and its
/// environment, and limits its memory as the profile says.
pub proof fn law_unit_file(
    p: &Profile,
    ms: &Vec<RuntimeManifest>,
    s: String,
    args: Vec<String>,
    line: String,
    env: Vec<(String, String)>,
    display: String,
)
    requires
        call_ensures(render_unit, (p, ms), s),
        call_ensures(args_for, (p, ms), args),
        call_ensures(shell_join, (&args,), line),
        call_ensures(env_for, (p, ms), env),
        call_ensures(display_for, (p, ms), display),
    ensures
        s@ == "# generated by cyberdeck — profile '"@ + p.name@
            + "'\n[Unit]\nDescription=cyberdeck: "@ + p.name@ + " ("@ + display@
            + ")\nAfter=network.target\n\n[Service]\nType=simple\nExecStart="@ + p.bin@ + " "@
            + line@ + "\nRestart=on-failure\nRestartSec=5\n"@ + written_env(
            env@,
            env@.len() as int,
        ) + (if p.mem_max_mb is Some {
            "MemoryMax="@ + decimal(p.mem_max_mb->0 as nat) + "M\n"@
        } else {
            Seq::empty()
        }) + (if p.mem_swap_max_mb is Some {
            "MemorySwapMax="@ + decimal(p.mem_swap_max_mb->0 as nat) + "M\n"@
        } else {
            Seq::empty()
        }) + "\n[Install]\nWantedBy=default.target\n"@,
{
    lemma_written_env(env@, env@.len() as int);
    assert(pair_texts(env@).len() == env@.len());
}

/// The first manifest with its id is the one that is found.
pub proof fn lemma_first_with_id(ms: Seq<RuntimeManifest>, i: int, k: int)
    requires
        0 <= k <= i < ms.len(),
        forall|j: int| 0 <= j < i ==> (#[trigger] ms[j]).id@ != ms[i].id@,
    ensures
        crate::fitplan::manifest_from(ms, ms[i].id@, k) == Some(i),
    decreases i - k,
{
    if k < i {
        assert(ms[k].id@ != ms[i].id@);
        lemma_first_with_id(ms, i, k + 1);
    }
}

/// A profile of a runtime in the registry goes by that runtime's unit and
/// name; any other by those of its engine.
pub proof fn law_bound_runtime(
    p: &Profile,
    ms: &Vec<RuntimeManifest>,
    unit: String,
    display: String,
    i: int,
)
    requires
        call_ensures(unit_name_for, (p, ms), unit),
        call_ensures(display_for, (p, ms), display),
        0 <= i < ms@.len(),
        p.runtime_id is Some,
        ms@[i].id@ == (p.runtime_id->0)@,
        forall|j: int| 0 <= j < i ==> (#[trigger] ms@[j]).id@ != ms@[i].id@,
    ensures
        unit@ == ms@[i].unit_name@,
        display@ == ms@[i].display@,
{
    lemma_first_with_id(ms@, i, 0);
}

/// The environment of a builtin engine: a key for llama.cpp, the address to
/// bind to for Ollama.
pub proof fn law_builtin_environment(
    p: &Profile,
    ms: &Vec<RuntimeManifest>,
    unit: Vec<(String, String)>,
)
    requires
        call_ensures(env_for, (p, ms), unit),
        p.runtime_id is None,
    ensures
        p.engine == Engine::FreeToken ==> unit@.len() == 0,
        p.engine != Engine::FreeToken ==> unit@.len() == 1,
        p.engine == Engine::Ollama ==> unit@[0].0@ == "OLLAMA_HOST"@ && unit@[0].1@ == p.host@
            + ":"@ + decimal(p.port as nat),
        p.engine == Engine::LlamaCpp || p.engine == Engine::UncensoredLlamaCpp ==> unit@[0].0@
            == "LLAMACPP_API_KEY"@ && unit@[0].1@ == "llamacpp-local"@,
{
    let t = pair_texts(unit@);
    assert(t.len() == unit@.len());
    if unit@.len() > 0 {
        assert(t[0] == (unit@[0].0@, unit@[0].1@));
    }
}

/// A runtime takes an artifact from a local path, of a format and an
/// architecture that it lists; an empty list takes all.
pub proof fn law_supports(m: &RuntimeManifest, format: &ModelFormat, arch: Option<&str>, r: bool)
    requires
        call_ensures(RuntimeManifest::supports, (m, format, arch), r),
    ensures
        r <==> {
            &&& m.model_source == ModelSourceSer::LocalPath
            &&& m.formats@.len() > 0 ==> texts(m.formats@).contains(
                if *format == ModelFormat::Gguf {
                    "gguf"@
                } else {
                    "safetensors-dir"@
                },
            )
            &&& m.architectures@.len() > 0 ==> texts(m.architectures@).contains(
                match arch {
                    Some(a) => a@,
                    None => "?"@,
                },
            )
        },
{
}

proof fn lemma_last_set(
    base: Seq<(Seq<char>, Seq<char>)>,
    pairs: Seq<(Seq<char>, Seq<char>)>,
    i: int,
)
    requires
        0 <= i < pairs.len(),
        forall|j: int| i < j < pairs.len() ==> (#[trigger] pairs[j]).0 != pairs[i].0,
    ensures
        value_of(with_values(base, pairs), pairs[i].0) == Some(pairs[i].1),
    decreases pairs.len(),
{
    let rest = pairs.drop_last();
    law_value_after_set(with_values(base, rest), pairs.last().0, pairs.last().1, pairs[i].0);
    if i < pairs.len() - 1 {
        assert(pairs[pairs.len() - 1].0 != pairs[i].0);
        assert forall|j: int| i < j < rest.len() implies (#[trigger] rest[j]).0 != rest[i].0 by {
            assert(pairs[j].0 != pairs[i].0);
        }
        lemma_last_set(base, rest, i);
    }
}

proof fn lemma_never_set(
    base: Seq<(Seq<char>, Seq<char>)>,
    pairs: Seq<(Seq<char>, Seq<char>)>,
    key: Seq<char>,
)
    requires
        forall|j: int| 0 <= j < pairs.len() ==> (#[trigger] pairs[j]).0 != key,
    ensures
        value_of(with_values(base, pairs), key) == value_of(base, key),
    decreases pairs.len(),
{
    if pairs.len() > 0 {
        let rest = pairs.drop_last();
        assert(pairs[pairs.len() - 1].0 != key);
        law_value_after_set(with_values(base, rest), pairs.last().0, pairs.last().1, key);
        assert forall|j: int| 0 <= j < rest.len() implies (#[trigger] rest[j]).0 != key by {
            assert(pairs[j].0 != key);
        }
        lemma_never_set(base, rest, key);
    }
}

/// A tunable with a default.
pub open spec fn sets_default(c: ConfigParam, key: Seq<char>) -> bool {
    c.key@ == key && c.default is Some
}

proof fn lemma_defaults(c: Seq<ConfigParam>, n: int, key: Seq<char>)
    requires
        0 <= n <= c.len(),
    ensures
        (forall|i: int| 0 <= i < n ==> !sets_default(#[trigger] c[i], key)) ==> forall|j: int|
            0 <= j < defaults_upto(c, n).len() ==> (#[trigger] defaults_upto(c, n)[j]).0 != key,
    decreases n,
{
    if n > 0 {
        lemma_defaults(c, n - 1, key);
        if forall|i: int| 0 <= i < n ==> !sets_default(#[trigger] c[i], key) {
            assert(!sets_default(c[n - 1], key));
            assert forall|i: int| 0 <= i < n - 1 implies !sets_default(#[trigger] c[i], key) by {}
            let rest = defaults_upto(c, n - 1);
            assert forall|j: int| 0 <= j < defaults_upto(c, n).len() implies (
            #[trigger] defaults_upto(c, n)[j]).0 != key by {
                if j < rest.len() {
                    assert(rest[j].0 != key);
                }
            }
        }
    }
}

proof fn lemma_default_at(c: Seq<ConfigParam>, n: int, i: int) -> (k: int)
    requires
        0 <= i < n <= c.len(),
        c[i].default is Some,
        forall|j: int| i < j < n ==> !sets_default(#[trigger] c[j], c[i].key@),
    ensures
        0 <= k < defaults_upto(c, n).len(),
        defaults_upto(c, n)[k] == (c[i].key@, (c[i].default->0)@),
        forall|j: int|
            k < j < defaults_upto(c, n).len() ==> (#[trigger] defaults_upto(c, n)[j]).0
                != c[i].key@,
    decreases n,
{
    if i == n - 1 {
        defaults_upto(c, n - 1).len() as int
    } else {
        assert(!sets_default(c[n - 1], c[i].key@));
        lemma_default_at(c, n - 1, i)
    }
}

/// What is put for a name: the override; else the default of the last tunable
/// of that name that has one; else the model, the host, the port, the context
/// or the alias of the launch.
pub proof fn law_values_of_a_launch(
    m: RuntimeManifest,
    model: Seq<char>,
    host: Seq<char>,
    port: u16,
    ctx: u32,
    alias: Seq<char>,
    overrides: Seq<(Seq<char>, Seq<char>)>,
    i: int,
    key: Seq<char>,
)
    requires
        ascending(overrides),
    ensures
        0 <= i < overrides.len() ==> value_of(
            launch_values(m, model, host, port, ctx, alias, overrides),
            overrides[i].0,
        ) == Some(overrides[i].1),
        0 <= i < m.configuration@.len() && m.configuration@[i].default is Some && (forall|j: int|
            0 <= j < overrides.len() ==> (#[trigger] overrides[j]).0 != m.configuration@[i].key@)
            && (forall|j: int|
            i < j < m.configuration@.len() ==> !sets_default(
                #[trigger] m.configuration@[j],
                m.configuration@[i].key@,
            )) ==> value_of(
            launch_values(m, model, host, port, ctx, alias, overrides),
            m.configuration@[i].key@,
        ) == Some((m.configuration@[i].default->0)@),
        (forall|j: int| 0 <= j < overrides.len() ==> (#[trigger] overrides[j]).0 != key) && (forall|
            j: int,
        |
            0 <= j < m.configuration@.len() ==> !sets_default(#[trigger] m.configuration@[j], key))
            ==> {
            let v = value_of(launch_values(m, model, host, port, ctx, alias, overrides), key);
            &&& key == "model"@ ==> v == Some(model)
            &&& key == "host"@ ==> v == Some(host)
            &&& key == "port"@ ==> v == Some(decimal(port as nat))
            &&& key == "ctx"@ ==> v == Some(decimal(ctx as nat))
            &&& key == "alias"@ ==> v == Some(alias)
            &&& key != "model"@ && key != "host"@ && key != "port"@ && key != "ctx"@ && key
                != "alias"@ ==> v is None
        },
{
    let d = defaults_upto(m.configuration@, m.configuration@.len() as int);
    let none = Seq::<(Seq<char>, Seq<char>)>::empty();
    if 0 <= i < overrides.len() {
        lemma_value_at(overrides, i);
        law_override_wins(m, model, host, port, ctx, alias, overrides, overrides[i].0);
    }
    if 0 <= i < m.configuration@.len() && m.configuration@[i].default is Some && (forall|j: int|
        0 <= j < overrides.len() ==> (#[trigger] overrides[j]).0 != m.configuration@[i].key@) && (
    forall|j: int|
        i < j < m.configuration@.len() ==> !sets_default(
            #[trigger] m.configuration@[j],
            m.configuration@[i].key@,
        )) {
        let k = lemma_default_at(m.configuration@, m.configuration@.len() as int, i);
        lemma_last_set(none, d, k);
        lemma_absent(overrides, m.configuration@[i].key@);
        law_override_wins(m, model, host, port, ctx, alias, overrides, m.configuration@[i].key@);
    }
    if (forall|j: int| 0 <= j < overrides.len() ==> (#[trigger] overrides[j]).0 != key) && (forall|
        j: int,
    |
        0 <= j < m.configuration@.len() ==> !sets_default(#[trigger] m.configuration@[j], key)) {
        lemma_absent(overrides, key);
        lemma_defaults(m.configuration@, m.configuration@.len() as int, key);
        lemma_never_set(none, d, key);
        law_override_wins(m, model, host, port, ctx, alias, overrides, key);
        let b = launch_pairs(model, host, port, ctx, alias);
        reveal_strlit("model");
        reveal_strlit("host");
        reveal_strlit("port");
        reveal_strlit("ctx");
        reveal_strlit("alias");
        assert("model"@[0] == 'm' && "host"@[0] == 'h' && "port"@[0] == 'p' && "ctx"@[0] == 'c'
            && "alias"@[0] == 'a');
        if key == "model"@ {
            lemma_last_set(none, b, 0);
        } else if key == "host"@ {
            lemma_last_set(none, b, 1);
        } else if key == "port"@ {
            lemma_last_set(none, b, 2);
        } else if key == "ctx"@ {
            lemma_last_set(none, b, 3);
        } else if key == "alias"@ {
            lemma_last_set(none, b, 4);
        } else {
            lemma_never_set(none, b, key);
        }
    }
}

proof fn lemma_absent(s: Seq<(Seq<char>, Seq<char>)>, key: Seq<char>)
    requires
        forall|j: int| 0 <= j < s.len() ==> (#[trigger] s[j]).0 != key,
    ensures
        value_of(s, key) is None,
    decreases s.len(),
{
    if s.len() > 0 {
        assert(s[0].0 != key);
        let t = s.drop_first();
        assert forall|j: int| 0 <= j < t.len() implies (#[trigger] t[j]).0 != key by {
            assert(s[j + 1].0 != key);
        }
        lemma_absent(t, key);
    }
}

proof fn lemma_value_at(s: Seq<(Seq<char>, Seq<char>)>, i: int)
    requires
        ascending(s),
        0 <= i < s.len(),
    ensures
        value_of(s, s[i].0) == Some(s[i].1),
    decreases s.len(),
{
    if i > 0 {
        assert(crate::text::lex_below(s[0].0, s[i].0));
        crate::text::lemma_lex_total(s[0].0, s[i].0);
        let t = s.drop_first();
        assert forall|a: int, b: int| 0 <= a < b < t.len() implies crate::text::lex_below(
            (#[trigger] t[a]).0,
            (#[trigger] t[b]).0,
        ) by {
            assert(t[a] == s[a + 1] && t[b] == s[b + 1]);
        }
        lemma_value_at(t, i - 1);
    }
}

/// A value is found under its name, and under no other.
pub proof fn law_values_by_name(s: Seq<(Seq<char>, Seq<char>)>, i: int, key: Seq<char>)
    requires
        ascending(s),
    ensures
        0 <= i < s.len() ==> value_of(s, s[i].0) == Some(s[i].1),
        (forall|j: int| 0 <= j < s.len() ==> (#[trigger] s[j]).0 != key) ==> value_of(s, key)
            is None,
{
    if 0 <= i < s.len() {
        lemma_value_at(s, i);
    }
    if forall|j: int| 0 <= j < s.len() ==> (#[trigger] s[j]).0 != key {
        lemma_absent(s, key);
    }
}

/// A template of nothing but a name in braces.
pub open spec fn is_hole(t: Seq<char>, key: Seq<char>) -> bool {
    t == seq!['{'] + key + seq!['}'] && !key.contains('{') && !key.contains('}')
}

/// One more template at the end of a list adds its text with the names put in;
/// but a name without a value adds nothing, and takes the flag before it away.
/// The other arguments stay.
pub proof fn law_one_more_template(
    m: &RuntimeManifest,
    n: &RuntimeManifest,
    model: &str,
    host: &str,
    port: u16,
    ctx: u32,
    alias: &str,
    overrides: &Params,
    r: Vec<String>,
    q: Vec<String>,
    t: Seq<char>,
    key: Seq<char>,
)
    requires
        call_ensures(
            RuntimeManifest::render_argv,
            (m, model, host, port, ctx, alias, overrides),
            r,
        ),
        call_ensures(
            RuntimeManifest::render_argv,
            (n, model, host, port, ctx, alias, overrides),
            q,
        ),
        m.argv_template@.len() > 0,
        texts(n.argv_template@) == texts(m.argv_template@).push(t),
        n.configuration == m.configuration,
    ensures
        ({
            let vals = launch_values(*m, model@, host@, port, ctx, alias@, overrides@);
            let flag = r@.len() > 0 && r@.last()@.len() > 0 && r@.last()@[0] == '-';
            &&& is_hole(t, key) && value_of(vals, key) is None && flag ==> texts(q@) =~= texts(
                r@,
            ).drop_last()
            &&& is_hole(t, key) && value_of(vals, key) is None && !flag ==> texts(q@) == texts(r@)
            &&& is_hole(t, key) && value_of(vals, key) is Some ==> texts(q@) == texts(r@).push(
                substituted(t, vals),
            )
            &&& (t.len() == 0 || t[0] != '{' || t.last() != '}') ==> texts(q@) == texts(r@).push(
                substituted(t, vals),
            )
        }),
{
    let vals = launch_values(*m, model@, host@, port, ctx, alias@, overrides@);
    let ts = argv_templates(*m);
    let us = argv_templates(*n);
    assert(us == ts.push(t)) by {
        assert(texts(n.argv_template@).len() == n.argv_template@.len());
    }
    assert(us.drop_last() =~= ts);
    assert(us.last() == t);
    assert(launch_values(*n, model@, host@, port, ctx, alias@, overrides@) == vals);
    if r@.len() > 0 {
        assert(texts(r@)[r@.len() - 1] == r@[r@.len() - 1]@);
        assert(texts(r@).last() == r@.last()@);
    }
    if is_hole(t, key) {
        assert(t.subrange(1, t.len() - 1) =~= key);
        assert(t[0] == '{' && t.last() == '}');
    }
}

/// Without templates of its own a runtime is told the model and the port.
pub proof fn law_plain_templates(m: RuntimeManifest)
    requires
        m.argv_template@.len() == 0,
    ensures
        argv_templates(m) == seq!["--model"@, "{model}"@, "--port"@, "{port}"@],
{
}

proof fn lemma_replace_absent(s: Seq<char>, from: Seq<char>, to: Seq<char>)
    requires
        from.len() > 0,
        !s.contains(from[0]),
    ensures
        replace(s, from, to) == s,
    decreases s.len(),
{
    if s.len() > 0 {
        assert(s[0] != from[0]) by {
            assert(s.contains(s[0]));
        }
        if has_prefix(s, from) {
            assert(s.subrange(0, from.len() as int)[0] == s[0]);
        }
        let t = s.drop_first();
        assert(!t.contains(from[0])) by {
            if t.contains(from[0]) {
                let i = choose|i: int| 0 <= i < t.len() && t[i] == from[0];
                assert(s[i + 1] == from[0]);
            }
        }
        lemma_replace_absent(t, from, to);
        assert(s =~= seq![s[0]] + t);
    }
}

proof fn lemma_replace_once(a: Seq<char>, from: Seq<char>, b: Seq<char>, to: Seq<char>)
    requires
        from.len() > 0,
        !a.contains(from[0]),
    ensures
        replace(a + from + b, from, to) == a + to + replace(b, from, to),
    decreases a.len(),
{
    let s = a + from + b;
    if a.len() == 0 {
        assert(s.subrange(0, from.len() as int) =~= from);
        assert(s.skip(from.len() as int) =~= b);
        assert(a + to + replace(b, from, to) =~= to + replace(b, from, to));
    } else {
        assert(s[0] == a[0]);
        assert(a.contains(a[0]));
        if has_prefix(s, from) {
            assert(s.subrange(0, from.len() as int)[0] == s[0]);
        }
        let t = a.drop_first();
        assert(!t.contains(from[0])) by {
            if t.contains(from[0]) {
                let i = choose|i: int| 0 <= i < t.len() && t[i] == from[0];
                assert(a[i + 1] == from[0]);
            }
        }
        lemma_replace_once(t, from, b, to);
        assert(s.drop_first() =~= t + from + b);
        assert(a + to + replace(b, from, to) =~= seq![a[0]] + (t + to + replace(b, from, to)));
    }
}

/// Replacing leaves a text without the first character of the pattern alone,
/// and puts the new text where the pattern stands first, going on behind it.
pub proof fn law_replacing(a: Seq<char>, from: Seq<char>, b: Seq<char>, to: Seq<char>)
    requires
        from.len() > 0,
        !a.contains(from[0]),
    ensures
        replace(a, from, to) == a,
        replace(a + from + b, from, to) == a + to + replace(b, from, to),
{
    lemma_replace_absent(a, from, to);
    lemma_replace_once(a, from, b, to);
}

proof fn lemma_replace_other(
    a: Seq<char>,
    key: Seq<char>,
    b: Seq<char>,
    other: Seq<char>,
    to: Seq<char>,
)
    requires
        !a.contains('{'),
        !b.contains('{'),
        !key.contains('{'),
        !key.contains('}'),
        !other.contains('}'),
        key != other,
    ensures
        replace(a + (seq!['{'] + key + seq!['}']) + b, seq!['{'] + other + seq!['}'], to) == a + (
        seq!['{'] + key + seq!['}']) + b,
    decreases a.len(),
{
    let from = seq!['{'] + other + seq!['}'];
    let hole = seq!['{'] + key + seq!['}'];
    let s = a + hole + b;
    assert(from[0] == '{');
    if a.len() > 0 {
        assert(s[0] == a[0] && a.contains(a[0]));
        if has_prefix(s, from) {
            assert(s.subrange(0, from.len() as int)[0] == s[0]);
        }
        let t = a.drop_first();
        assert(!t.contains('{')) by {
            if t.contains('{') {
                let i = choose|i: int| 0 <= i < t.len() && t[i] == '{';
                assert(a[i + 1] == '{');
            }
        }
        lemma_replace_other(t, key, b, other, to);
        assert(s.drop_first() =~= t + hole + b);
        assert(s =~= seq![s[0]] + s.drop_first());
    } else {
        assert(s =~= hole + b);
        if has_prefix(s, from) {
            let h = s.subrange(0, from.len() as int);
            assert(h == from);
            let n = other.len() as int;
            assert(from[n + 1] == '}' && h[n + 1] == s[n + 1]);
            if n < key.len() {
                assert(s[n + 1] == key[n]);
                assert(key.contains(key[n]));
            } else if n > key.len() {
                assert(s[key.len() as int + 1] == '}');
                assert(from[key.len() as int + 1] == other[key.len() as int]);
                assert(h[key.len() as int + 1] == s[key.len() as int + 1]);
                assert(other.contains(other[key.len() as int]));
            } else {
                assert forall|i: int| 0 <= i < n implies other[i] == key[i] by {
                    assert(from[i + 1] == other[i] && h[i + 1] == s[i + 1] && s[i + 1] == key[i]);
                }
                assert(other =~= key);
            }
        }
        let rest = s.drop_first();
        assert(!rest.contains('{')) by {
            if rest.contains('{') {
                let i = choose|i: int| 0 <= i < rest.len() && rest[i] == '{';
                assert(s[i + 1] == '{');
                if i < key.len() {
                    assert(key[i] == '{');
                } else if i > key.len() {
                    assert(b[i - key.len() - 1] == '{');
                }
            }
        }
        lemma_replace_absent(rest, from, to);
        assert(s =~= seq![s[0]] + rest);
    }
}

proof fn lemma_substituted_plain(t: Seq<char>, vals: Seq<(Seq<char>, Seq<char>)>)
    requires
        !t.contains('{'),
    ensures
        substituted(t, vals) == t,
    decreases vals.len(),
{
    if vals.len() > 0 {
        lemma_substituted_plain(t, vals.drop_last());
        let from = crate::runtime::braced(vals.last().0);
        reveal_strlit("{");
        reveal_strlit("}");
        assert(from[0] == '{');
        lemma_replace_absent(t, from, vals.last().1);
    }
}

proof fn lemma_substituted(
    a: Seq<char>,
    key: Seq<char>,
    b: Seq<char>,
    vals: Seq<(Seq<char>, Seq<char>)>,
)
    requires
        !a.contains('{'),
        !b.contains('{'),
        !key.contains('{'),
        !key.contains('}'),
        forall|i: int|
            0 <= i < vals.len() ==> !(#[trigger] vals[i]).0.contains('}') && !vals[i].1.contains(
                '{',
            ),
    ensures
        (forall|i: int| 0 <= i < vals.len() ==> (#[trigger] vals[i]).0 != key) ==> substituted(
            a + (seq!['{'] + key + seq!['}']) + b,
            vals,
        ) == a + (seq!['{'] + key + seq!['}']) + b,
        forall|i: int|
            0 <= i < vals.len() && (#[trigger] vals[i]).0 == key && (forall|j: int|
                0 <= j < i ==> (#[trigger] vals[j]).0 != key) ==> substituted(
                a + (seq!['{'] + key + seq!['}']) + b,
                vals,
            ) == a + vals[i].1 + b,
    decreases vals.len(),
{
    let hole = seq!['{'] + key + seq!['}'];
    let t = a + hole + b;
    if vals.len() > 0 {
        let rest = vals.drop_last();
        let last = vals[vals.len() - 1];
        assert forall|i: int| 0 <= i < rest.len() implies !(#[trigger] rest[i]).0.contains('}')
            && !rest[i].1.contains('{') by {
            assert(vals[i] == rest[i]);
        }
        lemma_substituted(a, key, b, rest);
        reveal_strlit("{");
        reveal_strlit("}");
        assert("{"@ =~= seq!['{'] && "}"@ =~= seq!['}']);
        let from = seq!['{'] + last.0 + seq!['}'];
        assert(crate::runtime::braced(last.0) == from);
        assert(from[0] == '{');
        if forall|i: int| 0 <= i < vals.len() ==> (#[trigger] vals[i]).0 != key {
            assert forall|i: int| 0 <= i < rest.len() implies (#[trigger] rest[i]).0 != key by {
                assert(vals[i] == rest[i]);
            }
            lemma_replace_other(a, key, b, last.0, last.1);
        }
        assert forall|i: int|
            0 <= i < vals.len() && (#[trigger] vals[i]).0 == key && (forall|j: int|
                0 <= j < i ==> (#[trigger] vals[j]).0 != key) implies substituted(t, vals) == a
            + vals[i].1 + b by {
            if i == vals.len() - 1 {
                assert forall|k: int| 0 <= k < rest.len() implies (#[trigger] rest[k]).0 != key by {
                    assert(vals[k] == rest[k]);
                }
                lemma_replace_once(a, from, b, last.1);
                lemma_replace_absent(b, from, last.1);
            } else {
                assert(rest[i].0 == key);
                assert forall|j: int| 0 <= j < i implies (#[trigger] rest[j]).0 != key by {
                    assert(vals[j] == rest[j]);
                }
                let u = a + vals[i].1 + b;
                assert(!u.contains('{')) by {
                    if u.contains('{') {
                        let k = choose|k: int| 0 <= k < u.len() && u[k] == '{';
                        if k < a.len() {
                            assert(a[k] == '{');
                        } else if k < a.len() + vals[i].1.len() {
                            assert(vals[i].1[k - a.len()] == '{');
                        } else {
                            assert(b[k - a.len() - vals[i].1.len()] == '{');
                        }
                    }
                }
                lemma_replace_absent(u, from, last.1);
            }
        }
    }
}

/// A name in braces gives way to its value, and the rest of the template
/// stays; a name without a value stays too.
pub proof fn law_names_give_way(
    a: Seq<char>,
    key: Seq<char>,
    b: Seq<char>,
    vals: Seq<(Seq<char>, Seq<char>)>,
)
    requires
        ascending(vals),
        !a.contains('{'),
        !b.contains('{'),
        !key.contains('{'),
        !key.contains('}'),
        forall|i: int|
            0 <= i < vals.len() ==> !(#[trigger] vals[i]).0.contains('}') && !vals[i].1.contains(
                '{',
            ),
    ensures
        substituted(a, vals) == a,
        forall|i: int|
            0 <= i < vals.len() && (#[trigger] vals[i]).0 == key ==> substituted(
                a + (seq!['{'] + key + seq!['}']) + b,
                vals,
            ) == a + vals[i].1 + b,
        (forall|i: int| 0 <= i < vals.len() ==> (#[trigger] vals[i]).0 != key) ==> substituted(
            a + (seq!['{'] + key + seq!['}']) + b,
            vals,
        ) == a + (seq!['{'] + key + seq!['}']) + b,
{
    lemma_substituted_plain(a, vals);
    lemma_substituted(a, key, b, vals);
    assert forall|i: int| 0 <= i < vals.len() && (#[trigger] vals[i]).0 == key implies substituted(
        a + (seq!['{'] + key + seq!['}']) + b,
        vals,
    ) == a + vals[i].1 + b by {
        assert forall|j: int| 0 <= j < i implies (#[trigger] vals[j]).0 != key by {
            crate::text::lemma_lex_total(vals[j].0, vals[i].0);
        }
    }
}

/// The environment of a runtime has its names, each with its value, the names
/// in it put in as in arguments.
pub proof fn law_runtime_environment(
    m: &RuntimeManifest,
    model: &str,
    host: &str,
    port: u16,
    ctx: u32,
    alias: &str,
    overrides: &Params,
    r: Vec<(String, String)>,
    i: int,
)
    requires
        call_ensures(RuntimeManifest::render_env, (m, model, host, port, ctx, alias, overrides), r),
        0 <= i < m.env@.len(),
    ensures
        r@.len() == m.env@.len(),
        r@[i].0@ == m.env@[i].0,
        r@[i].1@ == substituted(
            m.env@[i].1,
            launch_values(*m, model@, host@, port, ctx, alias@, overrides@),
        ),
{
    let t = pair_texts(r@);
    assert(t.len() == r@.len());
    assert(t[i] == (r@[i].0@, r@[i].1@));
}

proof fn lemma_first_file(paths: Seq<Seq<char>>, files: Seq<Seq<char>>, i: int)
    requires
        0 <= i < paths.len(),
        files.contains(paths[i]),
        forall|j: int| 0 <= j < i ==> !files.contains(#[trigger] paths[j]),
    ensures
        first_file(paths, files) == Some(paths[i]),
    decreases paths.len(),
{
    if i > 0 {
        assert(!files.contains(paths[0]));
        let rest = paths.drop_first();
        assert forall|j: int| 0 <= j < i - 1 implies !files.contains(#[trigger] rest[j]) by {
            assert(rest[j] == paths[j + 1]);
        }
        lemma_first_file(rest, files, i - 1);
    }
}

proof fn lemma_no_file(paths: Seq<Seq<char>>, files: Seq<Seq<char>>)
    requires
        forall|j: int| 0 <= j < paths.len() ==> !files.contains(#[trigger] paths[j]),
    ensures
        first_file(paths, files) is None,
    decreases paths.len(),
{
    if paths.len() > 0 {
        assert(!files.contains(paths[0]));
        let rest = paths.drop_first();
        assert forall|j: int| 0 <= j < rest.len() implies !files.contains(#[trigger] rest[j]) by {
            assert(rest[j] == paths[j + 1]);
        }
        lemma_no_file(rest, files);
    }
}

/// One of the paths of a candidate is a file.
pub open spec fn resolves(
    candidate: Seq<char>,
    dirs: Seq<Seq<char>>,
    files: Seq<Seq<char>>,
) -> bool {
    if candidate.contains('/') || candidate.contains('\\') {
        files.contains(candidate)
    } else {
        exists|i: int|
            0 <= i < dirs.len() && files.contains(
                crate::runtime::path_in(#[trigger] dirs[i], candidate),
            )
    }
}

proof fn lemma_resolves(candidate: Seq<char>, dirs: Seq<Seq<char>>, files: Seq<Seq<char>>)
    ensures
        resolves(candidate, dirs, files) <==> first_file(candidate_paths(candidate, dirs), files)
            is Some,
{
    let paths = candidate_paths(candidate, dirs);
    if resolves(candidate, dirs, files) {
        if candidate.contains('/') || candidate.contains('\\') {
            lemma_first_file(paths, files, 0);
        } else {
            let i = choose|i: int|
                0 <= i < dirs.len() && files.contains(
                    crate::runtime::path_in(#[trigger] dirs[i], candidate),
                );
            assert(files.contains(paths[i]));
            if first_file(paths, files) is None {
                lemma_some_file(paths, files, i);
            }
        }
    } else {
        assert forall|j: int| 0 <= j < paths.len() implies !files.contains(#[trigger] paths[j]) by {
            if !(candidate.contains('/') || candidate.contains('\\')) {
                assert(paths[j] == crate::runtime::path_in(dirs[j], candidate));
            }
        }
        lemma_no_file(paths, files);
    }
}

proof fn lemma_some_file(paths: Seq<Seq<char>>, files: Seq<Seq<char>>, i: int)
    requires
        0 <= i < paths.len(),
        files.contains(paths[i]),
    ensures
        first_file(paths, files) is Some,
    decreases paths.len(),
{
    if !files.contains(paths[0]) {
        assert(paths.drop_first()[i - 1] == paths[i]);
        lemma_some_file(paths.drop_first(), files, i - 1);
    }
}

proof fn lemma_resolved(
    candidates: Seq<Seq<char>>,
    dirs: Seq<Seq<char>>,
    files: Seq<Seq<char>>,
    k: int,
)
    requires
        0 <= k < candidates.len(),
        resolves(candidates[k], dirs, files),
        forall|j: int| 0 <= j < k ==> !resolves(#[trigger] candidates[j], dirs, files),
    ensures
        first_resolved(candidates, dirs, files) == first_file(
            candidate_paths(candidates[k], dirs),
            files,
        ),
    decreases candidates.len(),
{
    lemma_resolves(candidates[0], dirs, files);
    if k > 0 {
        assert(!resolves(candidates[0], dirs, files));
        let rest = candidates.drop_first();
        assert forall|j: int| 0 <= j < k - 1 implies !resolves(#[trigger] rest[j], dirs, files) by {
            assert(rest[j] == candidates[j + 1]);
        }
        lemma_resolved(rest, dirs, files, k - 1);
    }
}

/// The program of a runtime is the first candidate that is a file, the
/// configured path before the others: a path as it is, a name in the first
/// directory that has it.
pub proof fn law_program_is_the_first_found(
    candidates: &Vec<String>,
    dirs: &Vec<String>,
    over: Option<&str>,
    files: &Vec<String>,
    r: Option<String>,
    k: int,
    i: int,
)
    requires
        call_ensures(find_bin, (candidates, dirs, over, files), r),
        0 <= k < all_candidates(opt_str(over), texts(candidates@)).len(),
        resolves(
            all_candidates(opt_str(over), texts(candidates@))[k],
            texts(dirs@),
            texts(files@),
        ),
        forall|j: int|
            0 <= j < k ==> !resolves(
                #[trigger] all_candidates(opt_str(over), texts(candidates@))[j],
                texts(dirs@),
                texts(files@),
            ),
    ensures
        r is Some,
        texts(files@).contains((r->0)@),
        ({
            let c = all_candidates(opt_str(over), texts(candidates@))[k];
            &&& c.contains('/') || c.contains('\\') ==> (r->0)@ == c
            &&& !c.contains('/') && !c.contains('\\') && 0 <= i < dirs@.len() && texts(
                files@,
            ).contains(crate::runtime::path_in(texts(dirs@)[i], c)) && (forall|j: int|
                0 <= j < i ==> !texts(files@).contains(
                    crate::runtime::path_in(#[trigger] texts(dirs@)[j], c),
                )) ==> (r->0)@ == crate::runtime::path_in(texts(dirs@)[i], c)
        }),
{
    let all = all_candidates(opt_str(over), texts(candidates@));
    let ds = texts(dirs@);
    let fs = texts(files@);
    let c = all[k];
    let paths = candidate_paths(c, ds);
    lemma_resolved(all, ds, fs, k);
    lemma_resolves(c, ds, fs);
    crate::runtime::law_resolved_is_file(all, ds, fs);
    if !c.contains('/') && !c.contains('\\') && 0 <= i < ds.len() && fs.contains(
        crate::runtime::path_in(ds[i], c),
    ) && (forall|j: int|
        0 <= j < i ==> !fs.contains(crate::runtime::path_in(#[trigger] ds[j], c))) {
        assert forall|j: int| 0 <= j < i implies !fs.contains(#[trigger] paths[j]) by {
            assert(paths[j] == crate::runtime::path_in(ds[j], c));
        }
        assert(paths[i] == crate::runtime::path_in(ds[i], c));
        lemma_first_file(paths, fs, i);
    }
}

proof fn lemma_none_resolved(
    candidates: Seq<Seq<char>>,
    dirs: Seq<Seq<char>>,
    files: Seq<Seq<char>>,
)
    requires
        forall|j: int|
            0 <= j < candidates.len() ==> !resolves(#[trigger] candidates[j], dirs, files),
    ensures
        first_resolved(candidates, dirs, files) is None,
    decreases candidates.len(),
{
    if candidates.len() > 0 {
        assert(!resolves(candidates[0], dirs, files));
        lemma_resolves(candidates[0], dirs, files);
        let rest = candidates.drop_first();
        assert forall|j: int| 0 <= j < rest.len() implies !resolves(
            #[trigger] rest[j],
            dirs,
            files,
        ) by {
            assert(rest[j] == candidates[j + 1]);
        }
        lemma_none_resolved(rest, dirs, files);
    }
}

/// Where no candidate is a file, no program is found. The configured path is
/// tried before the candidates.
pub proof fn law_no_program(
    candidates: &Vec<String>,
    dirs: &Vec<String>,
    over: Option<&str>,
    files: &Vec<String>,
    r: Option<String>,
)
    requires
        call_ensures(find_bin, (candidates, dirs, over, files), r),
    ensures
        (forall|j: int|
            0 <= j < all_candidates(opt_str(over), texts(candidates@)).len() ==> !resolves(
                #[trigger] all_candidates(opt_str(over), texts(candidates@))[j],
                texts(dirs@),
                texts(files@),
            )) ==> r is None,
        over is None ==> all_candidates(opt_str(over), texts(candidates@)) == texts(candidates@),
        over is Some ==> all_candidates(opt_str(over), texts(candidates@)) == seq![(over->0)@]
            + texts(candidates@),
{
    let all = all_candidates(opt_str(over), texts(candidates@));
    if forall|j: int|
        0 <= j < all.len() ==> !resolves(#[trigger] all[j], texts(dirs@), texts(files@)) {
        lemma_none_resolved(all, texts(dirs@), texts(files@));
    }
}

/// A name in a directory stands behind a slash, one slash.
pub proof fn law_joined_paths(dir: &str, name: &str, r: String)
    requires
        call_ensures(crate::runtime::path_join, (dir, name), r),
    ensures
        dir@.len() == 0 ==> r@ == name@,
        dir@.len() > 0 && dir@.last() == '/' ==> r@ == dir@ + name@,
        dir@.len() > 0 && dir@.last() != '/' ==> r@ == dir@ + "/"@ + name@,
{
}

} // verus!
