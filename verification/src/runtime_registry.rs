//! The registry: builtin manifests, and custom ones that were accepted.
use vstd::prelude::*;
use vstd::string::StringExecFns;

use crate::order::Ranking;
use crate::order::{in_order, is_stable_order, lemma_in_order, stable_order, Alphabetical};
use crate::params::Params;
use crate::profile::{
    engine_display, engine_id, engine_port, engine_protocol, engine_source, engine_test_port,
    engine_unit, engines, Engine, EngineProtocol, ModelSource,
};
use crate::runtime::{
    is_row_of, manifest_fault, ConfigParam, InstallRecipe, ModelSourceSer, ProtocolSer,
    RuntimeManifest, RuntimeRow, RuntimeStatus,
};
use crate::text::{clone_opt, clone_texts, lex_below, opt_text, owned, str_trim, texts, trim};

verus! {

/// The maturity of a builtin engine.
pub open spec fn builtin_status_spec(e: Engine) -> RuntimeStatus {
    match e {
        Engine::UncensoredLlamaCpp => RuntimeStatus::Community,
        _ => RuntimeStatus::Stable,
    }
}

/// The maturity of a builtin engine.
pub fn builtin_status(engine: Engine) -> (r: RuntimeStatus)
    ensures
        r == builtin_status_spec(engine),
{
    match engine {
        Engine::LlamaCpp | Engine::FreeToken | Engine::Ollama => RuntimeStatus::Stable,
        Engine::UncensoredLlamaCpp => RuntimeStatus::Community,
    }
}

/// The formats that a builtin engine loads.
pub open spec fn builtin_formats(e: Engine) -> Seq<Seq<char>> {
    match engine_source(e) {
        ModelSource::LocalPath => seq!["gguf"@, "safetensors-dir"@],
        ModelSource::OllamaStore => Seq::empty(),
    }
}

/// The tags of a builtin engine.
pub open spec fn builtin_capabilities(e: Engine) -> Seq<Seq<char>> {
    match e {
        Engine::FreeToken => seq!["offload"@, "cuda"@],
        Engine::Ollama => seq!["daemon"@],
        _ => seq!["cuda"@, "long-context"@],
    }
}

/// The manifest is that of a builtin engine.
pub open spec fn is_builtin_manifest(m: RuntimeManifest, e: Engine) -> bool {
    &&& m.id@ == engine_id(e)
    &&& m.display@ == engine_display(e)
    &&& m.version is None
    &&& texts(m.formats@) == builtin_formats(e)
    &&& m.architectures@.len() == 0
    &&& texts(m.capabilities@) == builtin_capabilities(e)
    &&& m.model_source == match engine_source(e) {
        ModelSource::LocalPath => ModelSourceSer::LocalPath,
        ModelSource::OllamaStore => ModelSourceSer::OllamaStore,
    }
    &&& m.protocol == match engine_protocol(e) {
        EngineProtocol::OpenAiChat => ProtocolSer::OpenAiChat,
        EngineProtocol::OllamaChat => ProtocolSer::OllamaChat,
    }
    &&& m.default_port == engine_port(e)
    &&& m.test_port == engine_test_port(e)
    &&& m.unit_name@ == engine_unit(e)
    &&& m.is_system_service == (e == Engine::Ollama)
    &&& m.status == builtin_status_spec(e)
    &&& m.bin_candidates@.len() == 0
    &&& m.configuration@.len() == 0
    &&& m.argv_template@.len() == 0
    &&& m.env@.len() == 0
    &&& m.install is None
}

fn builtin_manifest(e: Engine) -> (m: RuntimeManifest)
    ensures
        is_builtin_manifest(m, e),
{
    let d = e.descriptor();
    let mut formats: Vec<String> = Vec::new();
    match d.model_source {
        ModelSource::LocalPath => {
            formats.push(owned("gguf"));
            formats.push(owned("safetensors-dir"));
        },
        ModelSource::OllamaStore => {},
    }
    assert(texts(formats@) =~= builtin_formats(e));
    let mut capabilities: Vec<String> = Vec::new();
    match e {
        Engine::FreeToken => {
            capabilities.push(owned("offload"));
            capabilities.push(owned("cuda"));
        },
        Engine::Ollama => {
            capabilities.push(owned("daemon"));
        },
        _ => {
            capabilities.push(owned("cuda"));
            capabilities.push(owned("long-context"));
        },
    }
    assert(texts(capabilities@) =~= builtin_capabilities(e));
    RuntimeManifest {
        id: owned(d.id),
        display: owned(d.display),
        version: None,
        formats,
        architectures: Vec::new(),
        capabilities,
        model_source: match d.model_source {
            ModelSource::LocalPath => ModelSourceSer::LocalPath,
            ModelSource::OllamaStore => ModelSourceSer::OllamaStore,
        },
        protocol: match d.protocol {
            EngineProtocol::OpenAiChat => ProtocolSer::OpenAiChat,
            EngineProtocol::OllamaChat => ProtocolSer::OllamaChat,
        },
        default_port: d.default_port,
        test_port: d.test_port,
        unit_name: owned(d.unit_name),
        is_system_service: d.is_system_service,
        status: builtin_status(e),
        bin_candidates: Vec::new(),
        configuration: Vec::new(),
        argv_template: Vec::new(),
        env: Params::new(),
        install: None,
    }
}

/// The list holds the manifests of the builtin engines, in order.
pub open spec fn are_builtin_manifests(v: Seq<RuntimeManifest>) -> bool {
    v.len() == engines().len() && forall|i: int|
        0 <= i < v.len() ==> is_builtin_manifest(#[trigger] v[i], engines()[i])
}

/// The builtin engines as manifests.
pub fn builtin_manifests() -> (r: Vec<RuntimeManifest>)
    ensures
        are_builtin_manifests(r@),
{
    let all = Engine::all();
    let mut r: Vec<RuntimeManifest> = Vec::new();
    let mut i: usize = 0;
    while i < all.len()
        invariant
            all@ == engines(),
            i <= all@.len(),
            r@.len() == i,
            forall|j: int| 0 <= j < i ==> is_builtin_manifest(#[trigger] r@[j], engines()[j]),
        decreases all@.len() - i,
    {
        r.push(builtin_manifest(all[i]));
        i = i + 1;
    }
    r
}

/// Two tunables hold the same values.
pub open spec fn same_param(a: ConfigParam, b: ConfigParam) -> bool {
    &&& a.key@ == b.key@
    &&& a.label@ == b.label@
    &&& opt_text(a.default) == opt_text(b.default)
    &&& a.help@ == b.help@
}

pub open spec fn same_config(a: Seq<ConfigParam>, b: Seq<ConfigParam>) -> bool {
    a.len() == b.len() && forall|i: int| 0 <= i < a.len() ==> same_param(#[trigger] a[i], b[i])
}

/// Two recipes hold the same values.
pub open spec fn same_recipe(a: InstallRecipe, b: InstallRecipe) -> bool {
    match (a, b) {
        (
            InstallRecipe::Manual { url: u, instructions: i },
            InstallRecipe::Manual { url: v, instructions: j },
        ) => u@ == v@ && i@ == j@,
        (
            InstallRecipe::Url { url: u, filename: f, unpack: k, bin_path: p, sha256: s },
            InstallRecipe::Url { url: v, filename: g, unpack: l, bin_path: q, sha256: t },
        ) => u@ == v@ && opt_text(f) == opt_text(g) && opt_text(k) == opt_text(l) && p@ == q@
            && opt_text(s) == opt_text(t),
        (
            InstallRecipe::GithubRelease {
                repo: r,
                asset_pattern: a,
                unpack: k,
                bin_path: p,
                tag: g,
                sha256: s,
            },
            InstallRecipe::GithubRelease {
                repo: r2,
                asset_pattern: a2,
                unpack: k2,
                bin_path: p2,
                tag: g2,
                sha256: s2,
            },
        ) => r@ == r2@ && a@ == a2@ && opt_text(k) == opt_text(k2) && p@ == p2@ && opt_text(g)
            == opt_text(g2) && opt_text(s) == opt_text(s2),
        _ => false,
    }
}

pub open spec fn same_install(a: Option<InstallRecipe>, b: Option<InstallRecipe>) -> bool {
    match (a, b) {
        (Some(x), Some(y)) => same_recipe(x, y),
        (None, None) => true,
        _ => false,
    }
}

/// Two manifests hold the same values, their status and unit name aside.
pub open spec fn same_but_status_and_unit(a: RuntimeManifest, b: RuntimeManifest) -> bool {
    &&& a.id@ == b.id@
    &&& a.display@ == b.display@
    &&& opt_text(a.version) == opt_text(b.version)
    &&& texts(a.formats@) == texts(b.formats@)
    &&& texts(a.architectures@) == texts(b.architectures@)
    &&& texts(a.capabilities@) == texts(b.capabilities@)
    &&& a.model_source == b.model_source
    &&& a.protocol == b.protocol
    &&& a.default_port == b.default_port
    &&& a.test_port == b.test_port
    &&& a.is_system_service == b.is_system_service
    &&& texts(a.bin_candidates@) == texts(b.bin_candidates@)
    &&& same_config(a.configuration@, b.configuration@)
    &&& texts(a.argv_template@) == texts(b.argv_template@)
    &&& a.env@ == b.env@
    &&& same_install(a.install, b.install)
}

/// Two manifests hold the same values.
pub open spec fn same_manifest(a: RuntimeManifest, b: RuntimeManifest) -> bool {
    &&& same_but_status_and_unit(a, b)
    &&& a.status == b.status
    &&& a.unit_name@ == b.unit_name@
}

fn clone_recipe(r: &InstallRecipe) -> (c: InstallRecipe)
    ensures
        same_recipe(c, *r),
{
    match r {
        InstallRecipe::Manual { url, instructions } => InstallRecipe::Manual {
            url: owned(url.as_str()),
            instructions: owned(instructions.as_str()),
        },
        InstallRecipe::Url { url, filename, unpack, bin_path, sha256 } => InstallRecipe::Url {
            url: owned(url.as_str()),
            filename: clone_opt(filename),
            unpack: clone_opt(unpack),
            bin_path: owned(bin_path.as_str()),
            sha256: clone_opt(sha256),
        },
        InstallRecipe::GithubRelease { repo, asset_pattern, unpack, bin_path, tag, sha256 } =>
        InstallRecipe::GithubRelease {
            repo: owned(repo.as_str()),
            asset_pattern: owned(asset_pattern.as_str()),
            unpack: clone_opt(unpack),
            bin_path: owned(bin_path.as_str()),
            tag: clone_opt(tag),
            sha256: clone_opt(sha256),
        },
    }
}

fn clone_config(v: &Vec<ConfigParam>) -> (r: Vec<ConfigParam>)
    ensures
        same_config(r@, v@),
{
    let mut r: Vec<ConfigParam> = Vec::new();
    let mut i: usize = 0;
    while i < v.len()
        invariant
            i <= v@.len(),
            r@.len() == i,
            forall|j: int| 0 <= j < i ==> same_param(#[trigger] r@[j], v@[j]),
        decreases v@.len() - i,
    {
        let c = &v[i];
        r.push(
            ConfigParam {
                key: owned(c.key.as_str()),
                label: owned(c.label.as_str()),
                default: clone_opt(&c.default),
                help: owned(c.help.as_str()),
            },
        );
        i = i + 1;
    }
    r
}

/// A copy of a manifest.
pub fn clone_manifest(m: &RuntimeManifest) -> (r: RuntimeManifest)
    ensures
        same_manifest(r, *m),
{
    RuntimeManifest {
        id: owned(m.id.as_str()),
        display: owned(m.display.as_str()),
        version: clone_opt(&m.version),
        formats: clone_texts(&m.formats),
        architectures: clone_texts(&m.architectures),
        capabilities: clone_texts(&m.capabilities),
        model_source: m.model_source,
        protocol: m.protocol,
        default_port: m.default_port,
        test_port: m.test_port,
        unit_name: owned(m.unit_name.as_str()),
        is_system_service: m.is_system_service,
        status: m.status,
        bin_candidates: clone_texts(&m.bin_candidates),
        configuration: clone_config(&m.configuration),
        argv_template: clone_texts(&m.argv_template),
        env: m.env.copy(),
        install: match &m.install {
            Some(r) => Some(clone_recipe(r)),
            None => None,
        },
    }
}

/// Why a manifest that was read from a file is refused.
pub open spec fn refusal(m: RuntimeManifest) -> Option<Seq<char>> {
    if trim(m.id@).len() == 0 {
        Some("manifest id is empty"@)
    } else if m.default_port == 0 || m.test_port == 0 {
        Some("ports must be nonzero"@)
    } else if m.default_port == m.test_port {
        Some("default_port == test_port"@)
    } else {
        manifest_fault(m)
    }
}

/// The manifest `r` is `m` with what it left open filled in: an unknown status
/// is experimental, and the unit is named after the id.
pub open spec fn is_completed(r: RuntimeManifest, m: RuntimeManifest) -> bool {
    &&& same_but_status_and_unit(r, m)
    &&& r.status == if m.status == RuntimeStatus::Unknown {
        RuntimeStatus::Experimental
    } else {
        m.status
    }
    &&& r.unit_name@ == if trim(m.unit_name@).len() == 0 {
        "cyberdeck-"@ + m.id@ + ".service"@
    } else {
        m.unit_name@
    }
}

/// Checks a manifest that was read from the file at `path`, and fills in what
/// it left open.
pub fn accept_manifest(m: RuntimeManifest, path: &str) -> (r: Result<RuntimeManifest, String>)
    ensures
        match r {
            Ok(c) => refusal(m) is None && is_completed(c, m),
            Err(e) => refusal(m) is Some && e@ == path@ + ": "@ + refusal(m)->0,
        },
{
    let mut e = owned(path);
    e.append(": ");
    if str_trim(m.id.as_str()).as_str().is_empty() {
        e.append("manifest id is empty");
        return Err(e);
    }
    if m.default_port == 0 || m.test_port == 0 {
        e.append("ports must be nonzero");
        return Err(e);
    }
    if m.default_port == m.test_port {
        e.append("default_port == test_port");
        return Err(e);
    }
    match m.validate() {
        Ok(_) => {},
        Err(fault) => {
            e.append(fault.as_str());
            return Err(e);
        },
    }
    let mut m = m;
    if m.status == RuntimeStatus::Unknown {
        m.status = RuntimeStatus::Experimental;
    }
    if str_trim(m.unit_name.as_str()).as_str().is_empty() {
        let mut unit = owned("cyberdeck-");
        unit.append(m.id.as_str());
        unit.append(".service");
        m.unit_name = unit;
    }
    Ok(m)
}

/// The id is that of a builtin engine.
pub open spec fn is_builtin_id(id: Seq<char>) -> bool {
    crate::profile::engine_with_id(id) is Some
}

/// The positions of the first `n` manifests whose ids are not builtin.
pub open spec fn custom_positions(v: Seq<RuntimeManifest>, n: int) -> Seq<int>
    decreases n,
{
    if n <= 0 {
        Seq::empty()
    } else {
        let rest = custom_positions(v, n - 1);
        if is_builtin_id(v[n - 1].id@) {
            rest
        } else {
            rest.push(n - 1)
        }
    }
}

/// Compares the manifests at a list of positions by id.
pub open spec fn id_below(v: Seq<RuntimeManifest>, at: Seq<int>) -> spec_fn(int, int) -> bool {
    |i: int, j: int| lex_below(v[at[i]].id@, v[at[j]].id@)
}

/// The custom manifests of the registry: those whose ids collide with no
/// builtin, in the order of their ids; equal ids keep their order.
pub open spec fn are_customs(r: Seq<RuntimeManifest>, v: Seq<RuntimeManifest>) -> bool {
    let kept = custom_positions(v, v.len() as int);
    exists|p: Seq<usize>|
        {
            &&& #[trigger] in_order(
                p,
                kept.len(),
                id_below(v, kept),
            )
            &&& r.len() == kept.len()
            &&& forall|i: int| 0 <= i < r.len() ==> same_manifest(#[trigger] r[i], v[kept[p[i] as int]])
        }
}

/// The custom manifests of the registry, from those that were accepted.
pub fn load_custom_manifests(accepted: &Vec<RuntimeManifest>) -> (r: Vec<RuntimeManifest>)
    ensures
        are_customs(r@, accepted@),
{
    let ghost kept = custom_positions(accepted@, accepted@.len() as int);
    let mut at: Vec<usize> = Vec::new();
    let mut ids: Vec<String> = Vec::new();
    let mut i: usize = 0;
    while i < accepted.len()
        invariant
            i <= accepted@.len(),
            at@.len() == custom_positions(accepted@, i as int).len(),
            ids@.len() == at@.len(),
            forall|j: int|
                0 <= j < at@.len() ==> #[trigger] at@[j] == custom_positions(accepted@, i as int)[j]
                    && at@[j] < i,
            forall|j: int| 0 <= j < ids@.len() ==> (#[trigger] ids@[j])@ == accepted@[at@[j] as int].id@,
        decreases accepted@.len() - i,
    {
        if Engine::parse(accepted[i].id.as_str()).is_none() {
            at.push(i);
            ids.push(owned(accepted[i].id.as_str()));
        }
        i = i + 1;
    }
    let keys = Alphabetical { keys: ids };
    let p = stable_order(&keys);
    let mut r: Vec<RuntimeManifest> = Vec::new();
    let mut k: usize = 0;
    while k < p.len()
        invariant
            is_stable_order(&keys, p@),
            keys.keys@.len() == at@.len(),
            k <= p@.len(),
            r@.len() == k,
            forall|j: int| 0 <= j < at@.len() ==> #[trigger] at@[j] < accepted@.len(),
            forall|j: int|
                0 <= j < k ==> same_manifest(#[trigger] r@[j], accepted@[at@[p@[j] as int] as int]),
        decreases p@.len() - k,
    {
        assert(p@[k as int] < at@.len());
        r.push(clone_manifest(&accepted[at[p[k]]]));
        k = k + 1;
    }
    assert forall|j: int| 0 <= j < r@.len() implies same_manifest(
        #[trigger] r@[j],
        accepted@[kept[p@[j] as int]],
    ) by {
        assert(p@[j] < at@.len());
        assert(at@[p@[j] as int] == kept[p@[j] as int]);
    }
    let ghost less = id_below(accepted@, kept);
    proof {
        assert forall|i: int, j: int|
            0 <= i < keys.count() && 0 <= j < keys.count() implies #[trigger] keys.before(i, j)
            == less(i, j) by {
            assert(at@[i] == kept[i] && at@[j] == kept[j]);
            assert(keys.keys@[i]@ == accepted@[kept[i]].id@);
            assert(keys.keys@[j]@ == accepted@[kept[j]].id@);
        }
        lemma_in_order(&keys, p@, less);
        assert(in_order(p@, kept.len(), less));
    }
    r
}

/// The registry: the builtin manifests, then the custom ones.
pub open spec fn is_registry(r: Seq<RuntimeManifest>, customs: Seq<RuntimeManifest>) -> bool {
    let n = engines().len() as int;
    &&& r.len() == n + customs.len()
    &&& are_builtin_manifests(r.take(n))
    &&& forall|i: int| 0 <= i < customs.len() ==> same_manifest(r[n + i], #[trigger] customs[i])
}

/// The registry, from the custom manifests.
pub fn all_manifests(customs: &Vec<RuntimeManifest>) -> (r: Vec<RuntimeManifest>)
    ensures
        is_registry(r@, customs@),
{
    let mut r = builtin_manifests();
    let ghost base = r@;
    let mut i: usize = 0;
    while i < customs.len()
        invariant
            i <= customs@.len(),
            are_builtin_manifests(base),
            r@.len() == base.len() + i,
            r@.take(base.len() as int) == base,
            forall|j: int|
                0 <= j < i ==> same_manifest(r@[base.len() + j], #[trigger] customs@[j]),
        decreases customs@.len() - i,
    {
        let ghost before = r@;
        r.push(clone_manifest(&customs[i]));
        assert(r@.take(base.len() as int) =~= before.take(base.len() as int));
        assert forall|j: int| 0 <= j < i + 1 implies same_manifest(
            r@[base.len() + j],
            #[trigger] customs@[j],
        ) by {
            if j < i {
                assert(r@[base.len() + j] == before[base.len() + j]);
            }
        }
        i = i + 1;
    }
    r
}

/// The row is that of a builtin engine.
pub open spec fn is_builtin_row(r: RuntimeRow, e: Engine) -> bool {
    &&& r.id@ == engine_id(e)
    &&& r.display@ == engine_display(e)
    &&& r.status@ == builtin_status_spec(e).spec_tag()
    &&& r.default_port == engine_port(e)
    &&& r.test_port == engine_test_port(e)
    &&& texts(r.formats@) == builtin_formats(e)
    &&& texts(r.capabilities@) == builtin_capabilities(e)
    &&& !r.custom
}

/// The rows of the registry: the builtin engines, then the custom runtimes.
pub fn list_runtimes(customs: &Vec<RuntimeManifest>) -> (r: Vec<RuntimeRow>)
    ensures
        r@.len() == engines().len() + customs@.len(),
        forall|i: int|
            0 <= i < engines().len() ==> is_builtin_row(#[trigger] r@[i], engines()[i]),
        forall|i: int|
            0 <= i < customs@.len() ==> is_row_of(
                r@[engines().len() + i],
                #[trigger] customs@[i],
                true,
            ),
{
    let builtins = builtin_manifests();
    let mut r: Vec<RuntimeRow> = Vec::new();
    let mut i: usize = 0;
    while i < builtins.len()
        invariant
            are_builtin_manifests(builtins@),
            i <= builtins@.len(),
            r@.len() == i,
            forall|j: int| 0 <= j < i ==> is_row_of(#[trigger] r@[j], builtins@[j], false),
        decreases builtins@.len() - i,
    {
        r.push(RuntimeRow::of(&builtins[i], false));
        i = i + 1;
    }
    let ghost base = r@;
    let mut k: usize = 0;
    while k < customs.len()
        invariant
            k <= customs@.len(),
            r@.len() == base.len() + k,
            forall|j: int| 0 <= j < base.len() ==> #[trigger] r@[j] == base[j],
            forall|j: int|
                0 <= j < k ==> is_row_of(r@[base.len() + j], #[trigger] customs@[j], true),
        decreases customs@.len() - k,
    {
        let ghost before = r@;
        r.push(RuntimeRow::of(&customs[k], true));
        assert forall|j: int| 0 <= j < k + 1 implies is_row_of(
            r@[base.len() + j],
            #[trigger] customs@[j],
            true,
        ) by {
            if j < k {
                assert(r@[base.len() + j] == before[base.len() + j]);
            }
        }
        k = k + 1;
    }
    assert forall|j: int| 0 <= j < engines().len() implies is_builtin_row(
        #[trigger] r@[j],
        engines()[j],
    ) by {
        assert(is_builtin_manifest(builtins@[j], engines()[j]));
        assert(is_row_of(base[j], builtins@[j], false));
    }
    r
}

} // verus!
