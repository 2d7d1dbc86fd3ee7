//! The systemd unit of a profile: arguments, environment and text.
use vstd::prelude::*;
use vstd::string::StringExecFns;

use crate::fitplan::{find_manifest, manifest_with_id};
use crate::params::pair_texts;
use crate::profile::{engine_display, engine_unit, Engine, Profile};
use crate::runtime::{argv_templates, launch_values, rendered, rendered_env, RuntimeManifest};
use crate::text::{
    contains, decimal, decimal_of, join, join_texts, opt_text, owned, replace, str_contains,
    str_replace, texts,
};

verus! {

/// The manifest that a profile launches, where it launches a custom runtime of
/// the registry.
pub open spec fn bound_manifest(p: Profile, ms: Seq<RuntimeManifest>) -> Option<RuntimeManifest> {
    match p.runtime_id {
        Some(id) => match manifest_with_id(ms, id@) {
            Some(i) => Some(ms[i]),
            None => None,
        },
        None => None,
    }
}

/// The manifest that a profile launches.
pub fn manifest_for<'a>(p: &Profile, manifests: &'a Vec<RuntimeManifest>) -> (r: Option<
    &'a RuntimeManifest,
>)
    ensures
        match r {
            Some(m) => bound_manifest(*p, manifests@) == Some(*m),
            None => bound_manifest(*p, manifests@) is None,
        },
{
    match &p.runtime_id {
        Some(id) => match find_manifest(manifests, id.as_str()) {
            Some(i) => Some(&manifests[i]),
            None => None,
        },
        None => None,
    }
}

/// The unit of a profile.
pub open spec fn unit_of(p: Profile, ms: Seq<RuntimeManifest>) -> Seq<char> {
    match bound_manifest(p, ms) {
        Some(m) => m.unit_name@,
        None => engine_unit(p.engine),
    }
}

/// The name of the systemd unit of a profile.
pub fn unit_name_for(p: &Profile, manifests: &Vec<RuntimeManifest>) -> (r: String)
    ensures
        r@ == unit_of(*p, manifests@),
{
    match manifest_for(p, manifests) {
        Some(m) => owned(m.unit_name.as_str()),
        None => owned(p.engine.systemd_unit()),
    }
}

/// The name of a profile's runtime for people.
pub open spec fn display_of(p: Profile, ms: Seq<RuntimeManifest>) -> Seq<char> {
    match bound_manifest(p, ms) {
        Some(m) => m.display@,
        None => engine_display(p.engine),
    }
}

/// The name of a profile's runtime for people.
pub fn display_for(p: &Profile, manifests: &Vec<RuntimeManifest>) -> (r: String)
    ensures
        r@ == display_of(*p, manifests@),
{
    match manifest_for(p, manifests) {
        Some(m) => owned(m.display.as_str()),
        None => owned(p.engine.descriptor().display),
    }
}

/// The address that a profile binds to.
pub open spec fn bind_address(p: Profile) -> Seq<char> {
    p.host@ + ":"@ + decimal(p.port as nat)
}

fn address(p: &Profile) -> (r: String)
    ensures
        r@ == bind_address(*p),
{
    let mut r = owned(p.host.as_str());
    r.append(":");
    r.append(decimal_of(p.port as u64).as_str());
    r
}

/// The values that a profile's launch substitutes.
pub open spec fn profile_values(p: Profile, m: RuntimeManifest) -> Seq<(Seq<char>, Seq<char>)> {
    launch_values(m, p.model@, p.host@, p.port, p.ctx_size, p.alias@, p.params@)
}

/// The environment of a child that is only tried: without the key that would
/// make the engine refuse the health probe.
pub open spec fn child_env(p: Profile, ms: Seq<RuntimeManifest>) -> Seq<(Seq<char>, Seq<char>)> {
    match bound_manifest(p, ms) {
        Some(m) => rendered_env(m.env@, profile_values(p, m)),
        None => if p.engine == Engine::Ollama {
            seq![("OLLAMA_HOST"@, bind_address(p))]
        } else {
            Seq::empty()
        },
    }
}

/// The environment of a unit.
pub open spec fn unit_env(p: Profile, ms: Seq<RuntimeManifest>) -> Seq<(Seq<char>, Seq<char>)> {
    match bound_manifest(p, ms) {
        Some(m) => rendered_env(m.env@, profile_values(p, m)),
        None => match p.engine {
            Engine::LlamaCpp | Engine::UncensoredLlamaCpp => seq![
                ("LLAMACPP_API_KEY"@, "llamacpp-local"@),
            ],
            Engine::Ollama => seq![("OLLAMA_HOST"@, bind_address(p))],
            Engine::FreeToken => Seq::empty(),
        },
    }
}

/// The environment of a child that is only tried.
pub fn child_env_for(p: &Profile, manifests: &Vec<RuntimeManifest>) -> (r: Vec<(String, String)>)
    ensures
        pair_texts(r@) == child_env(*p, manifests@),
{
    match manifest_for(p, manifests) {
        Some(m) => m.render_env(
            p.model.as_str(),
            p.host.as_str(),
            p.port,
            p.ctx_size,
            p.alias.as_str(),
            &p.params,
        ),
        None => {
            let mut env: Vec<(String, String)> = Vec::new();
            if p.engine == Engine::Ollama {
                env.push((owned("OLLAMA_HOST"), address(p)));
            }
            assert(pair_texts(env@) =~= child_env(*p, manifests@));
            env
        },
    }
}

/// The environment of a unit.
pub fn env_for(p: &Profile, manifests: &Vec<RuntimeManifest>) -> (r: Vec<(String, String)>)
    ensures
        pair_texts(r@) == unit_env(*p, manifests@),
{
    match manifest_for(p, manifests) {
        Some(m) => m.render_env(
            p.model.as_str(),
            p.host.as_str(),
            p.port,
            p.ctx_size,
            p.alias.as_str(),
            &p.params,
        ),
        None => {
            let mut env: Vec<(String, String)> = Vec::new();
            match p.engine {
                Engine::LlamaCpp | Engine::UncensoredLlamaCpp => {
                    env.push((owned("LLAMACPP_API_KEY"), owned("llamacpp-local")));
                },
                Engine::Ollama => {
                    env.push((owned("OLLAMA_HOST"), address(p)));
                },
                Engine::FreeToken => {},
            }
            assert(pair_texts(env@) =~= unit_env(*p, manifests@));
            env
        },
    }
}

/// A flag with its value, where there is one.
pub open spec fn opt_flag(flag: Seq<char>, v: Option<Seq<char>>) -> Seq<Seq<char>> {
    match v {
        Some(v) => seq![flag, v],
        None => Seq::empty(),
    }
}

/// The numeral of an optional number.
pub open spec fn opt_decimal(v: Option<u32>) -> Option<Seq<char>> {
    match v {
        Some(n) => Some(decimal(n as nat)),
        None => None,
    }
}

/// The flags that every llama.cpp launch has.
pub open spec fn llama_flags(p: Profile) -> Seq<Seq<char>> {
    seq![
        "-m"@,
        p.model@,
        "--alias"@,
        p.alias@,
        "--ctx-size"@,
        decimal(p.ctx_size as nat),
        "--n-gpu-layers"@,
        decimal(p.n_gpu_layers as nat),
        "--ubatch-size"@,
        decimal(p.ubatch_size as nat),
        "--parallel"@,
        decimal(p.parallel as nat),
        "--temp"@,
        p.temperature@,
        "--top-p"@,
        p.top_p@,
        "--top-k"@,
        decimal(p.top_k as nat),
        "--port"@,
        decimal(p.port as nat),
        "--host"@,
        p.host@,
    ]
}

/// The arguments of llama.cpp.
pub open spec fn llama_args(p: Profile) -> Seq<Seq<char>> {
    llama_flags(p) + (if p.metrics {
        seq!["--metrics"@]
    } else {
        Seq::empty()
    }) + (if p.flash_attn {
        seq!["--flash-attn"@, "on"@]
    } else {
        Seq::empty()
    }) + opt_flag("--cache-type-k"@, opt_text(p.kv_cache_type_k)) + opt_flag(
        "--cache-type-v"@,
        opt_text(p.kv_cache_type_v),
    ) + opt_flag("--load-mode"@, opt_text(p.load_mode)) + opt_flag(
        "--spec-type"@,
        opt_text(p.spec_type),
    ) + opt_flag("--draft-model"@, opt_text(p.draft_model)) + opt_flag(
        "--reasoning"@,
        opt_text(p.reasoning),
    ) + opt_flag("--reasoning-format"@, opt_text(p.reasoning_format)) + opt_flag(
        "--reasoning-effort"@,
        opt_text(p.reasoning_effort),
    ) + opt_flag("--reasoning-budget"@, opt_decimal(p.reasoning_budget))
}

/// The arguments of FreeToken.
pub open spec fn freetoken_args(p: Profile) -> Seq<Seq<char>> {
    seq![
        "serve"@,
        "--model"@,
        p.model@,
        "--host"@,
        p.host@,
        "--port"@,
        decimal(p.port as nat),
    ] + opt_flag("--moe-backend"@, opt_text(p.ft_backend)) + opt_flag(
        "--moe-cache-size"@,
        opt_decimal(p.ft_moe_cache_size),
    )
}

/// The arguments of a builtin engine.
pub open spec fn engine_args(p: Profile) -> Seq<Seq<char>> {
    match p.engine {
        Engine::LlamaCpp | Engine::UncensoredLlamaCpp => llama_args(p),
        Engine::FreeToken => freetoken_args(p),
        Engine::Ollama => seq!["serve"@],
    }
}

fn add_arg(a: &mut Vec<String>, s: &str)
    ensures
        texts(final(a)@) == texts(old(a)@).push(s@),
{
    let ghost before = texts(a@);
    a.push(owned(s));
    assert(texts(a@) =~= before.push(s@));
}

fn push_flag(a: &mut Vec<String>, flag: &str, v: &Option<String>)
    ensures
        texts(final(a)@) == texts(old(a)@) + opt_flag(flag@, opt_text(*v)),
{
    let ghost before = texts(a@);
    match v {
        Some(s) => {
            add_arg(a, flag);
            add_arg(a, s.as_str());
        },
        None => {},
    }
    assert(texts(a@) =~= before + opt_flag(flag@, opt_text(*v)));
}

fn push_number(a: &mut Vec<String>, flag: &str, v: Option<u32>)
    ensures
        texts(final(a)@) == texts(old(a)@) + opt_flag(flag@, opt_decimal(v)),
{
    let text = match v {
        Some(n) => Some(decimal_of(n as u64)),
        None => None,
    };
    push_flag(a, flag, &text);
}

fn llama_arguments(p: &Profile) -> (a: Vec<String>)
    ensures
        texts(a@) == llama_args(*p),
{
    let mut a: Vec<String> = Vec::new();
    assert(texts(a@) =~= Seq::<Seq<char>>::empty());
    add_arg(&mut a, "-m");
    add_arg(&mut a, p.model.as_str());
    add_arg(&mut a, "--alias");
    add_arg(&mut a, p.alias.as_str());
    add_arg(&mut a, "--ctx-size");
    add_arg(&mut a, decimal_of(p.ctx_size as u64).as_str());
    add_arg(&mut a, "--n-gpu-layers");
    add_arg(&mut a, decimal_of(p.n_gpu_layers as u64).as_str());
    add_arg(&mut a, "--ubatch-size");
    add_arg(&mut a, decimal_of(p.ubatch_size as u64).as_str());
    add_arg(&mut a, "--parallel");
    add_arg(&mut a, decimal_of(p.parallel as u64).as_str());
    add_arg(&mut a, "--temp");
    add_arg(&mut a, p.temperature.as_str());
    add_arg(&mut a, "--top-p");
    add_arg(&mut a, p.top_p.as_str());
    add_arg(&mut a, "--top-k");
    add_arg(&mut a, decimal_of(p.top_k as u64).as_str());
    add_arg(&mut a, "--port");
    add_arg(&mut a, decimal_of(p.port as u64).as_str());
    add_arg(&mut a, "--host");
    add_arg(&mut a, p.host.as_str());
    assert(texts(a@) =~= llama_flags(*p));
    let ghost t0 = texts(a@);
    if p.metrics {
        add_arg(&mut a, "--metrics");
    }
    let ghost t1 = texts(a@);
    assert(t1 =~= t0 + (if p.metrics {
        seq!["--metrics"@]
    } else {
        Seq::empty()
    }));
    if p.flash_attn {
        add_arg(&mut a, "--flash-attn");
        add_arg(&mut a, "on");
    }
    assert(texts(a@) =~= t1 + (if p.flash_attn {
        seq!["--flash-attn"@, "on"@]
    } else {
        Seq::empty()
    }));
    push_flag(&mut a, "--cache-type-k", &p.kv_cache_type_k);
    push_flag(&mut a, "--cache-type-v", &p.kv_cache_type_v);
    push_flag(&mut a, "--load-mode", &p.load_mode);
    push_flag(&mut a, "--spec-type", &p.spec_type);
    push_flag(&mut a, "--draft-model", &p.draft_model);
    push_flag(&mut a, "--reasoning", &p.reasoning);
    push_flag(&mut a, "--reasoning-format", &p.reasoning_format);
    push_flag(&mut a, "--reasoning-effort", &p.reasoning_effort);
    push_number(&mut a, "--reasoning-budget", p.reasoning_budget);
    a
}

/// The arguments of a builtin engine.
pub fn build_args(p: &Profile) -> (a: Vec<String>)
    ensures
        texts(a@) == engine_args(*p),
{
    match p.engine {
        Engine::LlamaCpp | Engine::UncensoredLlamaCpp => llama_arguments(p),
        Engine::FreeToken => {
            let mut a: Vec<String> = Vec::new();
            assert(texts(a@) =~= Seq::<Seq<char>>::empty());
            add_arg(&mut a, "serve");
            add_arg(&mut a, "--model");
            add_arg(&mut a, p.model.as_str());
            add_arg(&mut a, "--host");
            add_arg(&mut a, p.host.as_str());
            add_arg(&mut a, "--port");
            add_arg(&mut a, decimal_of(p.port as u64).as_str());
            assert(texts(a@) =~= seq![
                "serve"@,
                "--model"@,
                p.model@,
                "--host"@,
                p.host@,
                "--port"@,
                decimal(p.port as nat),
            ]);
            push_flag(&mut a, "--moe-backend", &p.ft_backend);
            push_number(&mut a, "--moe-cache-size", p.ft_moe_cache_size);
            a
        },
        Engine::Ollama => {
            let mut a: Vec<String> = Vec::new();
            assert(texts(a@) =~= Seq::<Seq<char>>::empty());
            add_arg(&mut a, "serve");
            assert(texts(a@) =~= seq!["serve"@]);
            a
        },
    }
}

/// The arguments of a profile: those of its manifest's templates, or those of
/// its builtin engine.
pub open spec fn launch_args(p: Profile, ms: Seq<RuntimeManifest>) -> Seq<Seq<char>> {
    match bound_manifest(p, ms) {
        Some(m) => rendered(argv_templates(m), profile_values(p, m)),
        None => engine_args(p),
    }
}

/// The arguments of a profile.
pub fn args_for(p: &Profile, manifests: &Vec<RuntimeManifest>) -> (a: Vec<String>)
    ensures
        texts(a@) == launch_args(*p, manifests@),
{
    match manifest_for(p, manifests) {
        Some(m) => m.render_argv(
            p.model.as_str(),
            p.host.as_str(),
            p.port,
            p.ctx_size,
            p.alias.as_str(),
            &p.params,
        ),
        None => build_args(p),
    }
}

/// An argument as a unit spells it: in quotes where it has a space or a quote.
pub open spec fn quoted_arg(a: Seq<char>) -> Seq<char> {
    if contains(a, " "@) || contains(a, "\""@) {
        "\""@ + replace(a, "\""@, "\\\""@) + "\""@
    } else {
        a
    }
}

/// The arguments as a unit spells them.
pub open spec fn shell_text(args: Seq<Seq<char>>) -> Seq<char> {
    join(Seq::new(args.len(), |i: int| quoted_arg(args[i])), " "@)
}

fn quote_arg(a: &str) -> (r: String)
    ensures
        r@ == quoted_arg(a@),
{
    if str_contains(a, " ") || str_contains(a, "\"") {
        proof {
            reveal_strlit("\"");
        }
        let mut r = owned("\"");
        r.append(str_replace(a, "\"", "\\\"").as_str());
        r.append("\"");
        r
    } else {
        owned(a)
    }
}

/// The arguments as a unit spells them.
pub fn shell_join(args: &Vec<String>) -> (r: String)
    ensures
        r@ == shell_text(texts(args@)),
{
    let mut parts: Vec<String> = Vec::new();
    let mut i: usize = 0;
    while i < args.len()
        invariant
            i <= args@.len(),
            parts@.len() == i,
            forall|j: int| 0 <= j < i ==> (#[trigger] parts@[j])@ == quoted_arg(args@[j]@),
        decreases args@.len() - i,
    {
        parts.push(quote_arg(args[i].as_str()));
        i = i + 1;
    }
    assert(texts(parts@) =~= Seq::new(
        texts(args@).len(),
        |i: int| quoted_arg(texts(args@)[i]),
    ));
    join_texts(&parts, " ")
}

/// The environment lines of the first `n` pairs.
pub open spec fn env_lines(env: Seq<(Seq<char>, Seq<char>)>, n: int) -> Seq<char>
    decreases n,
{
    if n <= 0 {
        Seq::empty()
    } else {
        env_lines(env, n - 1) + ("Environment="@ + env[n - 1].0 + "="@ + env[n - 1].1 + "\n"@)
    }
}

/// The line of a memory limit.
pub open spec fn limit_line(name: Seq<char>, mb: Option<u64>) -> Seq<char> {
    match mb {
        Some(n) => name + decimal(n as nat) + "M\n"@,
        None => Seq::empty(),
    }
}

/// The text of a profile's unit.
pub open spec fn unit_text(p: Profile, ms: Seq<RuntimeManifest>) -> Seq<char> {
    let env = unit_env(p, ms);
    "# generated by cyberdeck — profile '"@ + p.name@ + "'\n[Unit]\nDescription=cyberdeck: "@
        + p.name@ + " ("@ + display_of(p, ms)
        + ")\nAfter=network.target\n\n[Service]\nType=simple\nExecStart="@ + p.bin@ + " "@
        + shell_text(launch_args(p, ms)) + "\nRestart=on-failure\nRestartSec=5\n"@ + env_lines(
        env,
        env.len() as int,
    ) + limit_line("MemoryMax="@, p.mem_max_mb) + limit_line("MemorySwapMax="@, p.mem_swap_max_mb)
        + "\n[Install]\nWantedBy=default.target\n"@
}

fn write_env(env: &Vec<(String, String)>) -> (r: String)
    ensures
        r@ == env_lines(pair_texts(env@), env@.len() as int),
{
    let mut r = String::new();
    let mut i: usize = 0;
    while i < env.len()
        invariant
            i <= env@.len(),
            r@ == env_lines(pair_texts(env@), i as int),
        decreases env@.len() - i,
    {
        let mut l = owned("Environment=");
        l.append(env[i].0.as_str());
        l.append("=");
        l.append(env[i].1.as_str());
        l.append("\n");
        r.append(l.as_str());
        i = i + 1;
    }
    r
}

fn write_limit(name: &str, mb: Option<u64>) -> (r: String)
    ensures
        r@ == limit_line(name@, mb),
{
    match mb {
        Some(n) => {
            let mut r = owned(name);
            r.append(decimal_of(n).as_str());
            r.append("M\n");
            r
        },
        None => String::new(),
    }
}

/// Renders the systemd unit of a profile.
pub fn render_unit(p: &Profile, manifests: &Vec<RuntimeManifest>) -> (s: String)
    ensures
        s@ == unit_text(*p, manifests@),
{
    let args = args_for(p, manifests);
    let env = env_for(p, manifests);
    let mut s = owned("# generated by cyberdeck — profile '");
    s.append(p.name.as_str());
    s.append("'\n[Unit]\nDescription=cyberdeck: ");
    s.append(p.name.as_str());
    s.append(" (");
    s.append(display_for(p, manifests).as_str());
    s.append(")\nAfter=network.target\n\n[Service]\nType=simple\nExecStart=");
    s.append(p.bin.as_str());
    s.append(" ");
    s.append(shell_join(&args).as_str());
    s.append("\nRestart=on-failure\nRestartSec=5\n");
    assert(pair_texts(env@).len() == env@.len());
    s.append(write_env(&env).as_str());
    s.append(write_limit("MemoryMax=", p.mem_max_mb).as_str());
    s.append(write_limit("MemorySwapMax=", p.mem_swap_max_mb).as_str());
    s.append("\n[Install]\nWantedBy=default.target\n");
    s
}

} // verus!
