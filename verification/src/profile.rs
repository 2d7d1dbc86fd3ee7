//! Loadout (profile) model: a fully specified engine launch.
//!
//! A profile names the binary, the model, every optimisation flag, the alias
//! and port contract, and the context ladder that is walked down when a load
//! runs out of memory.
use vstd::prelude::*;

use crate::params::Params;
use crate::text::{clone_opt, opt_text, owned, same};

verus! {

/// The builtin engines.
#[derive(Debug, Clone, Copy, PartialEq, Eq, Structural)]
pub enum Engine {
    LlamaCpp,
    FreeToken,
    Ollama,
    UncensoredLlamaCpp,
}

/// Where an engine takes its models from.
#[derive(Debug, Clone, Copy, PartialEq, Eq, Structural)]
pub enum ModelSource {
    /// A file or directory of the vault.
    LocalPath,
    /// Ollama's own store.
    OllamaStore,
}

/// The HTTP protocol that an engine speaks.
#[derive(Debug, Clone, Copy, PartialEq, Eq, Structural)]
pub enum EngineProtocol {
    OpenAiChat,
    OllamaChat,
}

/// What is fixed about an engine.
#[derive(Debug, Clone, Copy)]
pub struct EngineDescriptor {
    pub id: &'static str,
    pub display: &'static str,
    pub default_port: u16,
    pub test_port: u16,
    pub unit_name: &'static str,
    /// The unit is one of the system, not of the user.
    pub is_system_service: bool,
    pub model_source: ModelSource,
    pub protocol: EngineProtocol,
}

/// The id under which an engine is stored.
pub open spec fn engine_id(e: Engine) -> Seq<char> {
    match e {
        Engine::LlamaCpp => "llamacpp"@,
        Engine::FreeToken => "freetoken"@,
        Engine::Ollama => "ollama"@,
        Engine::UncensoredLlamaCpp => "uncensored-llamacpp"@,
    }
}

/// The systemd unit of an engine.
pub open spec fn engine_unit(e: Engine) -> Seq<char> {
    match e {
        Engine::LlamaCpp => "llama-server.service"@,
        Engine::FreeToken => "freetoken.service"@,
        Engine::Ollama => "ollama.service"@,
        Engine::UncensoredLlamaCpp => "llama-server-uncensored.service"@,
    }
}

/// The name of an engine for people.
pub open spec fn engine_display(e: Engine) -> Seq<char> {
    match e {
        Engine::LlamaCpp => "llama.cpp"@,
        Engine::FreeToken => "FreeToken"@,
        Engine::Ollama => "Ollama"@,
        Engine::UncensoredLlamaCpp => "llama.cpp (uncensored)"@,
    }
}

/// The live port of an engine.
pub open spec fn engine_port(e: Engine) -> u16 {
    match e {
        Engine::LlamaCpp => 18000,
        Engine::FreeToken => 1919,
        Engine::Ollama => 11434,
        Engine::UncensoredLlamaCpp => 18001,
    }
}

/// The port on which candidates of an engine are tried.
pub open spec fn engine_test_port(e: Engine) -> u16 {
    match e {
        Engine::LlamaCpp => 18999,
        Engine::FreeToken => 18998,
        Engine::Ollama => 18997,
        Engine::UncensoredLlamaCpp => 18996,
    }
}

pub open spec fn engine_source(e: Engine) -> ModelSource {
    if e == Engine::Ollama {
        ModelSource::OllamaStore
    } else {
        ModelSource::LocalPath
    }
}

pub open spec fn engine_protocol(e: Engine) -> EngineProtocol {
    if e == Engine::Ollama {
        EngineProtocol::OllamaChat
    } else {
        EngineProtocol::OpenAiChat
    }
}

/// All engines, in the order in which they are listed.
pub open spec fn engines() -> Seq<Engine> {
    seq![Engine::LlamaCpp, Engine::FreeToken, Engine::Ollama, Engine::UncensoredLlamaCpp]
}

/// The engine with an id.
pub open spec fn engine_with_id(id: Seq<char>) -> Option<Engine> {
    if id == engine_id(Engine::LlamaCpp) {
        Some(Engine::LlamaCpp)
    } else if id == engine_id(Engine::FreeToken) {
        Some(Engine::FreeToken)
    } else if id == engine_id(Engine::Ollama) {
        Some(Engine::Ollama)
    } else if id == engine_id(Engine::UncensoredLlamaCpp) {
        Some(Engine::UncensoredLlamaCpp)
    } else {
        None
    }
}

impl Engine {
    /// Every engine.
    pub fn all() -> (r: Vec<Engine>)
        ensures
            r@ == engines(),
    {
        let r = vec![
            Engine::LlamaCpp,
            Engine::FreeToken,
            Engine::Ollama,
            Engine::UncensoredLlamaCpp,
        ];
        assert(r@ =~= engines());
        r
    }

    /// What is fixed about the engine.
    pub fn descriptor(&self) -> (d: EngineDescriptor)
        ensures
            d.id@ == engine_id(*self),
            d.display@ == engine_display(*self),
            d.default_port == engine_port(*self),
            d.test_port == engine_test_port(*self),
            d.unit_name@ == engine_unit(*self),
            d.is_system_service == (*self == Engine::Ollama),
            d.model_source == engine_source(*self),
            d.protocol == engine_protocol(*self),
    {
        match self {
            Engine::LlamaCpp => EngineDescriptor {
                id: "llamacpp",
                display: "llama.cpp",
                default_port: 18000,
                test_port: 18999,
                unit_name: "llama-server.service",
                is_system_service: false,
                model_source: ModelSource::LocalPath,
                protocol: EngineProtocol::OpenAiChat,
            },
            Engine::FreeToken => EngineDescriptor {
                id: "freetoken",
                display: "FreeToken",
                default_port: 1919,
                test_port: 18998,
                unit_name: "freetoken.service",
                is_system_service: false,
                model_source: ModelSource::LocalPath,
                protocol: EngineProtocol::OpenAiChat,
            },
            Engine::Ollama => EngineDescriptor {
                id: "ollama",
                display: "Ollama",
                default_port: 11434,
                test_port: 18997,
                unit_name: "ollama.service",
                is_system_service: true,
                model_source: ModelSource::OllamaStore,
                protocol: EngineProtocol::OllamaChat,
            },
            Engine::UncensoredLlamaCpp => EngineDescriptor {
                id: "uncensored-llamacpp",
                display: "llama.cpp (uncensored)",
                default_port: 18001,
                test_port: 18996,
                unit_name: "llama-server-uncensored.service",
                is_system_service: false,
                model_source: ModelSource::LocalPath,
                protocol: EngineProtocol::OpenAiChat,
            },
        }
    }

    pub fn systemd_unit(&self) -> (r: &'static str)
        ensures
            r@ == engine_unit(*self),
    {
        self.descriptor().unit_name
    }

    pub fn store_id(&self) -> (r: &'static str)
        ensures
            r@ == engine_id(*self),
    {
        self.descriptor().id
    }

    pub fn default_port(&self) -> (r: u16)
        ensures
            r == engine_port(*self),
    {
        self.descriptor().default_port
    }

    pub fn test_port(&self) -> (r: u16)
        ensures
            r == engine_test_port(*self),
    {
        self.descriptor().test_port
    }

    pub fn model_source(&self) -> (r: ModelSource)
        ensures
            r == engine_source(*self),
    {
        self.descriptor().model_source
    }

    pub fn protocol(&self) -> (r: EngineProtocol)
        ensures
            r == engine_protocol(*self),
    {
        self.descriptor().protocol
    }

    /// The engine with an id.
    pub fn parse(id: &str) -> (r: Option<Engine>)
        ensures
            r == engine_with_id(id@),
    {
        if same(id, "llamacpp") {
            Some(Engine::LlamaCpp)
        } else if same(id, "freetoken") {
            Some(Engine::FreeToken)
        } else if same(id, "ollama") {
            Some(Engine::Ollama)
        } else if same(id, "uncensored-llamacpp") {
            Some(Engine::UncensoredLlamaCpp)
        } else {
            None
        }
    }
}

/// Reading an engine's id gives the engine back.
pub proof fn law_engine_id_round_trip(e: Engine)
    ensures
        engine_with_id(engine_id(e)) == Some(e),
{
    reveal_strlit("llamacpp");
    reveal_strlit("freetoken");
    reveal_strlit("ollama");
    reveal_strlit("uncensored-llamacpp");
    assert("llamacpp"@[0] == 'l');
    assert("freetoken"@[0] == 'f');
    assert("ollama"@[0] == 'o');
    assert("uncensored-llamacpp"@[0] == 'u');
}

/// Each engine owns a port of its own, live and for tests.
pub proof fn law_ports_disjoint(a: Engine, b: Engine)
    ensures
        engine_port(a) != engine_test_port(b),
        a != b ==> engine_port(a) != engine_port(b) && engine_test_port(a) != engine_test_port(b),
{
}

/// A fully specified engine launch. `temperature` and `top_p` are decimal
/// numerals.
#[derive(Debug, Clone, PartialEq)]
pub struct Profile {
    pub name: String,
    pub engine: Engine,
    /// The id of a custom runtime; `None` launches the builtin engine.
    pub runtime_id: Option<String>,
    pub bin: String,
    pub model: String,
    pub alias: String,
    pub host: String,
    pub port: u16,
    pub metrics: bool,
    pub ctx_size: u32,
    pub ctx_ladder: Vec<u32>,
    pub n_gpu_layers: u32,
    pub ubatch_size: u32,
    pub flash_attn: bool,
    pub kv_cache_type_k: Option<String>,
    pub kv_cache_type_v: Option<String>,
    pub load_mode: Option<String>,
    pub spec_type: Option<String>,
    pub draft_model: Option<String>,
    pub temperature: String,
    pub top_p: String,
    pub top_k: u32,
    pub parallel: u32,
    pub reasoning: Option<String>,
    pub reasoning_format: Option<String>,
    pub reasoning_effort: Option<String>,
    pub reasoning_budget: Option<u32>,
    pub ft_backend: Option<String>,
    pub ft_moe_cache_size: Option<u32>,
    pub mem_max_mb: Option<u64>,
    pub mem_swap_max_mb: Option<u64>,
    /// Values of a custom runtime's tunables, by key.
    pub params: Params,
}

/// The default binary.
pub open spec fn default_bin() -> Seq<char> {
    "/usr/bin/llama-server"@
}

/// The fields that a derived loadout leaves alone have their defaults.
pub open spec fn has_default_tuning(p: Profile) -> bool {
    &&& p.host@ == "0.0.0.0"@
    &&& p.metrics
    &&& p.ctx_ladder@ == seq![49152u32, 40960u32, 32768u32]
    &&& p.n_gpu_layers == 64
    &&& p.ubatch_size == 256
    &&& p.flash_attn
    &&& opt_text(p.kv_cache_type_k) == Some("q4_0"@)
    &&& opt_text(p.kv_cache_type_v) == Some("q4_0"@)
    &&& opt_text(p.load_mode) == Some("mmap+mlock"@)
    &&& p.spec_type is None
    &&& p.draft_model is None
    &&& p.temperature@ == "0.7"@
    &&& p.top_p@ == "0.8"@
    &&& p.top_k == 20
    &&& p.parallel == 1
    &&& opt_text(p.reasoning) == Some("on"@)
    &&& opt_text(p.reasoning_format) == Some("deepseek"@)
    &&& opt_text(p.reasoning_effort) == Some("medium"@)
    &&& p.reasoning_budget == Some(4096u32)
    &&& p.ft_moe_cache_size is None
    &&& p.mem_max_mb is None
    &&& p.mem_swap_max_mb is None
    &&& p.params@.len() == 0
}

/// The fields other than name, engine, binary and model have their defaults.
pub open spec fn has_default_flags(p: Profile) -> bool {
    &&& has_default_tuning(p)
    &&& p.runtime_id is None
    &&& p.alias@ == "model"@
    &&& p.port == 18000
    &&& p.ctx_size == 32768
    &&& p.ft_backend is None
}

impl Default for Profile {
    fn default() -> (p: Self)
        ensures
            p.name@.len() == 0,
            p.engine == Engine::LlamaCpp,
            p.bin@ == default_bin(),
            p.model@.len() == 0,
            has_default_flags(p),
    {
        let ctx_ladder: Vec<u32> = vec![49152u32, 40960u32, 32768u32];
        assert(ctx_ladder@ =~= seq![49152u32, 40960u32, 32768u32]);
        Profile {
            name: String::new(),
            engine: Engine::LlamaCpp,
            runtime_id: None,
            bin: owned("/usr/bin/llama-server"),
            model: String::new(),
            alias: owned("model"),
            host: owned("0.0.0.0"),
            port: 18000,
            metrics: true,
            ctx_size: 32768,
            ctx_ladder,
            n_gpu_layers: 64,
            ubatch_size: 256,
            flash_attn: true,
            kv_cache_type_k: Some(owned("q4_0")),
            kv_cache_type_v: Some(owned("q4_0")),
            load_mode: Some(owned("mmap+mlock")),
            spec_type: None,
            draft_model: None,
            temperature: owned("0.7"),
            top_p: owned("0.8"),
            top_k: 20,
            parallel: 1,
            reasoning: Some(owned("on")),
            reasoning_format: Some(owned("deepseek")),
            reasoning_effort: Some(owned("medium")),
            reasoning_budget: Some(4096),
            ft_backend: None,
            ft_moe_cache_size: None,
            mem_max_mb: None,
            mem_swap_max_mb: None,
            params: Params::new(),
        }
    }
}

/// The id of the runtime that a profile launches.
pub open spec fn profile_runtime(p: Profile) -> Seq<char> {
    match p.runtime_id {
        Some(id) => id@,
        None => engine_id(p.engine),
    }
}

impl Profile {
    /// The context sizes to try: the configured one, then the ladder.
    pub fn active_ladder(&self) -> (r: Vec<u32>)
        ensures
            r@ == seq![self.ctx_size] + self.ctx_ladder@,
    {
        let mut r: Vec<u32> = Vec::new();
        r.push(self.ctx_size);
        let mut i: usize = 0;
        while i < self.ctx_ladder.len()
            invariant
                i <= self.ctx_ladder@.len(),
                r@ == seq![self.ctx_size] + self.ctx_ladder@.take(i as int),
            decreases self.ctx_ladder@.len() - i,
        {
            r.push(self.ctx_ladder[i]);
            i = i + 1;
            assert(self.ctx_ladder@.take(i as int) =~= self.ctx_ladder@.take(i - 1).push(
                self.ctx_ladder@[i - 1],
            ));
        }
        assert(self.ctx_ladder@.take(i as int) =~= self.ctx_ladder@);
        r
    }

    /// The id of the runtime that the profile launches.
    pub fn runtime_key(&self) -> (r: String)
        ensures
            r@ == profile_runtime(*self),
    {
        match &self.runtime_id {
            Some(id) => owned(id.as_str()),
            None => owned(self.engine.store_id()),
        }
    }
}

/// Two profiles hold the same values, the context size aside.
pub open spec fn same_but_ctx(a: Profile, b: Profile) -> bool {
    &&& a.name@ == b.name@
    &&& a.engine == b.engine
    &&& opt_text(a.runtime_id) == opt_text(b.runtime_id)
    &&& a.bin@ == b.bin@
    &&& a.model@ == b.model@
    &&& a.alias@ == b.alias@
    &&& a.host@ == b.host@
    &&& a.port == b.port
    &&& a.metrics == b.metrics
    &&& a.ctx_ladder@ == b.ctx_ladder@
    &&& a.n_gpu_layers == b.n_gpu_layers
    &&& a.ubatch_size == b.ubatch_size
    &&& a.flash_attn == b.flash_attn
    &&& opt_text(a.kv_cache_type_k) == opt_text(b.kv_cache_type_k)
    &&& opt_text(a.kv_cache_type_v) == opt_text(b.kv_cache_type_v)
    &&& opt_text(a.load_mode) == opt_text(b.load_mode)
    &&& opt_text(a.spec_type) == opt_text(b.spec_type)
    &&& opt_text(a.draft_model) == opt_text(b.draft_model)
    &&& a.temperature@ == b.temperature@
    &&& a.top_p@ == b.top_p@
    &&& a.top_k == b.top_k
    &&& a.parallel == b.parallel
    &&& opt_text(a.reasoning) == opt_text(b.reasoning)
    &&& opt_text(a.reasoning_format) == opt_text(b.reasoning_format)
    &&& opt_text(a.reasoning_effort) == opt_text(b.reasoning_effort)
    &&& a.reasoning_budget == b.reasoning_budget
    &&& opt_text(a.ft_backend) == opt_text(b.ft_backend)
    &&& a.ft_moe_cache_size == b.ft_moe_cache_size
    &&& a.mem_max_mb == b.mem_max_mb
    &&& a.mem_swap_max_mb == b.mem_swap_max_mb
    &&& a.params@ == b.params@
}

/// Two profiles hold the same values, the executable aside.
pub open spec fn same_but_bin(a: Profile, b: Profile) -> bool {
    &&& a.name@ == b.name@
    &&& a.engine == b.engine
    &&& opt_text(a.runtime_id) == opt_text(b.runtime_id)
    &&& a.model@ == b.model@
    &&& a.alias@ == b.alias@
    &&& a.host@ == b.host@
    &&& a.port == b.port
    &&& a.metrics == b.metrics
    &&& a.ctx_size == b.ctx_size
    &&& a.ctx_ladder@ == b.ctx_ladder@
    &&& a.n_gpu_layers == b.n_gpu_layers
    &&& a.ubatch_size == b.ubatch_size
    &&& a.flash_attn == b.flash_attn
    &&& opt_text(a.kv_cache_type_k) == opt_text(b.kv_cache_type_k)
    &&& opt_text(a.kv_cache_type_v) == opt_text(b.kv_cache_type_v)
    &&& opt_text(a.load_mode) == opt_text(b.load_mode)
    &&& opt_text(a.spec_type) == opt_text(b.spec_type)
    &&& opt_text(a.draft_model) == opt_text(b.draft_model)
    &&& a.temperature@ == b.temperature@
    &&& a.top_p@ == b.top_p@
    &&& a.top_k == b.top_k
    &&& a.parallel == b.parallel
    &&& opt_text(a.reasoning) == opt_text(b.reasoning)
    &&& opt_text(a.reasoning_format) == opt_text(b.reasoning_format)
    &&& opt_text(a.reasoning_effort) == opt_text(b.reasoning_effort)
    &&& a.reasoning_budget == b.reasoning_budget
    &&& opt_text(a.ft_backend) == opt_text(b.ft_backend)
    &&& a.ft_moe_cache_size == b.ft_moe_cache_size
    &&& a.mem_max_mb == b.mem_max_mb
    &&& a.mem_swap_max_mb == b.mem_swap_max_mb
    &&& a.params@ == b.params@
}

/// Two profiles hold the same values, the name aside.
pub open spec fn same_but_name(a: Profile, b: Profile) -> bool {
    &&& a.engine == b.engine
    &&& opt_text(a.runtime_id) == opt_text(b.runtime_id)
    &&& a.bin@ == b.bin@
    &&& a.model@ == b.model@
    &&& a.alias@ == b.alias@
    &&& a.host@ == b.host@
    &&& a.port == b.port
    &&& a.metrics == b.metrics
    &&& a.ctx_size == b.ctx_size
    &&& a.ctx_ladder@ == b.ctx_ladder@
    &&& a.n_gpu_layers == b.n_gpu_layers
    &&& a.ubatch_size == b.ubatch_size
    &&& a.flash_attn == b.flash_attn
    &&& opt_text(a.kv_cache_type_k) == opt_text(b.kv_cache_type_k)
    &&& opt_text(a.kv_cache_type_v) == opt_text(b.kv_cache_type_v)
    &&& opt_text(a.load_mode) == opt_text(b.load_mode)
    &&& opt_text(a.spec_type) == opt_text(b.spec_type)
    &&& opt_text(a.draft_model) == opt_text(b.draft_model)
    &&& a.temperature@ == b.temperature@
    &&& a.top_p@ == b.top_p@
    &&& a.top_k == b.top_k
    &&& a.parallel == b.parallel
    &&& opt_text(a.reasoning) == opt_text(b.reasoning)
    &&& opt_text(a.reasoning_format) == opt_text(b.reasoning_format)
    &&& opt_text(a.reasoning_effort) == opt_text(b.reasoning_effort)
    &&& a.reasoning_budget == b.reasoning_budget
    &&& opt_text(a.ft_backend) == opt_text(b.ft_backend)
    &&& a.ft_moe_cache_size == b.ft_moe_cache_size
    &&& a.mem_max_mb == b.mem_max_mb
    &&& a.mem_swap_max_mb == b.mem_swap_max_mb
    &&& a.params@ == b.params@
}

/// Two profiles hold the same values.
pub open spec fn same_profile(a: Profile, b: Profile) -> bool {
    same_but_ctx(a, b) && a.ctx_size == b.ctx_size
}

fn copy_ladder(v: &Vec<u32>) -> (r: Vec<u32>)
    ensures
        r@ == v@,
{
    let mut r: Vec<u32> = Vec::new();
    let mut i: usize = 0;
    while i < v.len()
        invariant
            i <= v@.len(),
            r@ == v@.take(i as int),
        decreases v@.len() - i,
    {
        r.push(v[i]);
        assert(v@.take(i + 1) =~= v@.take(i as int).push(v@[i as int]));
        i = i + 1;
    }
    assert(v@.take(i as int) =~= v@);
    r
}

impl Profile {
    /// A copy of the profile at another context size.
    pub fn at_ctx(&self, ctx_size: u32) -> (r: Profile)
        ensures
            same_but_ctx(r, *self),
            r.ctx_size == ctx_size,
    {
        Profile {
            name: owned(self.name.as_str()),
            engine: self.engine,
            runtime_id: clone_opt(&self.runtime_id),
            bin: owned(self.bin.as_str()),
            model: owned(self.model.as_str()),
            alias: owned(self.alias.as_str()),
            host: owned(self.host.as_str()),
            port: self.port,
            metrics: self.metrics,
            ctx_size,
            ctx_ladder: copy_ladder(&self.ctx_ladder),
            n_gpu_layers: self.n_gpu_layers,
            ubatch_size: self.ubatch_size,
            flash_attn: self.flash_attn,
            kv_cache_type_k: clone_opt(&self.kv_cache_type_k),
            kv_cache_type_v: clone_opt(&self.kv_cache_type_v),
            load_mode: clone_opt(&self.load_mode),
            spec_type: clone_opt(&self.spec_type),
            draft_model: clone_opt(&self.draft_model),
            temperature: owned(self.temperature.as_str()),
            top_p: owned(self.top_p.as_str()),
            top_k: self.top_k,
            parallel: self.parallel,
            reasoning: clone_opt(&self.reasoning),
            reasoning_format: clone_opt(&self.reasoning_format),
            reasoning_effort: clone_opt(&self.reasoning_effort),
            reasoning_budget: self.reasoning_budget,
            ft_backend: clone_opt(&self.ft_backend),
            ft_moe_cache_size: self.ft_moe_cache_size,
            mem_max_mb: self.mem_max_mb,
            mem_swap_max_mb: self.mem_swap_max_mb,
            params: self.params.copy(),
        }
    }

    /// A copy of the profile.
    pub fn copy(&self) -> (r: Profile)
        ensures
            same_profile(r, *self),
    {
        self.at_ctx(self.ctx_size)
    }
}

} // verus!
