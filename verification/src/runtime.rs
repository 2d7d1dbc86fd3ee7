//! Runtime manifests: the description that every backend gives of itself, and
//! what a launch makes of it.
use vstd::prelude::*;
use vstd::string::{StrSliceExecFns, StringExecFns};

use crate::model::{format_tag, ModelFormat};
use crate::params::{
    ascending, law_values_layered, law_with_values_ascending, value_of, with_values, Params,
};
use crate::profile::{EngineProtocol, ModelSource};
use crate::text::{
    chars_until, clone_texts, decimal, decimal_of, has_text, opt_str, opt_text, owned, replace,
    same, slice_string, str_replace, texts, to_chars, until,
};

verus! {

/// Maturity of a backend. It never gates execution.
#[derive(Debug, Clone, Copy, PartialEq, Eq, Structural)]
pub enum RuntimeStatus {
    Unknown,
    Stable,
    Experimental,
    Community,
}

impl Default for RuntimeStatus {
    fn default() -> (r: Self)
        ensures
            r == RuntimeStatus::Unknown,
    {
        RuntimeStatus::Unknown
    }
}

impl RuntimeStatus {
    pub open spec fn spec_tag(self) -> Seq<char> {
        match self {
            RuntimeStatus::Stable => "stable"@,
            RuntimeStatus::Experimental => "experimental"@,
            RuntimeStatus::Community => "community"@,
            RuntimeStatus::Unknown => "unknown"@,
        }
    }

    pub fn tag(self) -> (r: &'static str)
        ensures
            r@ == self.spec_tag(),
    {
        match self {
            RuntimeStatus::Stable => "stable",
            RuntimeStatus::Experimental => "experimental",
            RuntimeStatus::Community => "community",
            RuntimeStatus::Unknown => "unknown",
        }
    }
}

/// One tunable that a backend exposes. Templates reference it as `{key}`.
#[derive(Debug, Clone, PartialEq)]
pub struct ConfigParam {
    pub key: String,
    pub label: String,
    /// The value where the profile sets none.
    pub default: Option<String>,
    pub help: String,
}

/// How to install a backend.
#[derive(Debug, Clone, PartialEq)]
pub enum InstallRecipe {
    /// Guidance for people.
    Manual { url: String, instructions: String },
    /// One artifact to download.
    Url {
        url: String,
        filename: Option<String>,
        unpack: Option<String>,
        bin_path: String,
        sha256: Option<String>,
    },
    /// The newest release, or the pinned one, that has a matching asset.
    GithubRelease {
        repo: String,
        asset_pattern: String,
        unpack: Option<String>,
        bin_path: String,
        tag: Option<String>,
        sha256: Option<String>,
    },
}

#[derive(Debug, Clone, Copy, PartialEq, Eq, Structural)]
pub enum ModelSourceSer {
    LocalPath,
    OllamaStore,
}

impl Default for ModelSourceSer {
    fn default() -> (r: Self)
        ensures
            r == ModelSourceSer::LocalPath,
    {
        ModelSourceSer::LocalPath
    }
}

#[derive(Debug, Clone, Copy, PartialEq, Eq, Structural)]
pub enum ProtocolSer {
    OpenAiChat,
    OllamaChat,
}

impl Default for ProtocolSer {
    fn default() -> (r: Self)
        ensures
            r == ProtocolSer::OpenAiChat,
    {
        ProtocolSer::OpenAiChat
    }
}

/// Declarative description of one backend. Empty `formats` or `architectures`
/// accept anything.
#[derive(Debug, Clone, PartialEq)]
pub struct RuntimeManifest {
    pub id: String,
    pub display: String,
    pub version: Option<String>,
    pub formats: Vec<String>,
    pub architectures: Vec<String>,
    /// Free-form tags; `offload` makes the fit estimate spill weights to RAM.
    pub capabilities: Vec<String>,
    pub model_source: ModelSourceSer,
    pub protocol: ProtocolSer,
    pub default_port: u16,
    pub test_port: u16,
    pub unit_name: String,
    pub is_system_service: bool,
    pub status: RuntimeStatus,
    pub bin_candidates: Vec<String>,
    pub configuration: Vec<ConfigParam>,
    /// Empty stands for `--model {model} --port {port}`.
    pub argv_template: Vec<String>,
    pub env: Params,
    pub install: Option<InstallRecipe>,
}

/// The placeholders that every template may use.
pub open spec fn template_builtins() -> Seq<Seq<char>> {
    seq!["model"@, "host"@, "port"@, "ctx"@, "alias"@]
}

/// Whether a name is one of the placeholders that every template may use.
pub fn is_template_builtin(name: &str) -> (r: bool)
    ensures
        r == template_builtins().contains(name@),
{
    let r = same(name, "model") || same(name, "host") || same(name, "port") || same(name, "ctx")
        || same(name, "alias");
    proof {
        let b = template_builtins();
        assert(b[0] == "model"@ && b[1] == "host"@ && b[2] == "port"@ && b[3] == "ctx"@ && b[4]
            == "alias"@);
        if b.contains(name@) {
            let i = choose|i: int| 0 <= i < b.len() && b[i] == name@;
            assert(0 <= i < 5);
        }
        if r {
            assert(b.contains(name@));
        }
    }
    r
}

/// The runtime can load an artifact of a format and architecture.
pub open spec fn supports_spec(m: RuntimeManifest, format: ModelFormat, arch: Option<Seq<char>>) -> bool {
    &&& m.model_source == ModelSourceSer::LocalPath
    &&& m.formats@.len() == 0 || texts(m.formats@).contains(format_tag(format))
    &&& m.architectures@.len() == 0 || texts(m.architectures@).contains(
        match arch {
            Some(a) => a,
            None => "?"@,
        },
    )
}

/// The values that every launch has.
pub open spec fn launch_pairs(
    model: Seq<char>,
    host: Seq<char>,
    port: u16,
    ctx: u32,
    alias: Seq<char>,
) -> Seq<(Seq<char>, Seq<char>)> {
    seq![
        ("model"@, model),
        ("host"@, host),
        ("port"@, decimal(port as nat)),
        ("ctx"@, decimal(ctx as nat)),
        ("alias"@, alias),
    ]
}

/// The values that every launch has, by name.
pub open spec fn builtin_values_spec(
    model: Seq<char>,
    host: Seq<char>,
    port: u16,
    ctx: u32,
    alias: Seq<char>,
) -> Seq<(Seq<char>, Seq<char>)> {
    with_values(Seq::empty(), launch_pairs(model, host, port, ctx, alias))
}

/// The keys with a default among the first `n` tunables, with it.
pub open spec fn defaults_upto(c: Seq<ConfigParam>, n: int) -> Seq<(Seq<char>, Seq<char>)>
    decreases n,
{
    if n <= 0 {
        Seq::empty()
    } else {
        let rest = defaults_upto(c, n - 1);
        match c[n - 1].default {
            Some(d) => rest.push((c[n - 1].key@, d@)),
            None => rest,
        }
    }
}

/// The defaults of a manifest's tunables, by key.
pub open spec fn default_params_spec(m: RuntimeManifest) -> Seq<(Seq<char>, Seq<char>)> {
    with_values(Seq::empty(), defaults_upto(m.configuration@, m.configuration@.len() as int))
}

/// What a launch substitutes: the values that every launch has, under the
/// defaults, under the overrides.
pub open spec fn launch_values(
    m: RuntimeManifest,
    model: Seq<char>,
    host: Seq<char>,
    port: u16,
    ctx: u32,
    alias: Seq<char>,
    overrides: Seq<(Seq<char>, Seq<char>)>,
) -> Seq<(Seq<char>, Seq<char>)> {
    with_values(
        builtin_values_spec(model, host, port, ctx, alias),
        with_values(default_params_spec(m), overrides),
    )
}

/// A name in braces.
pub open spec fn braced(key: Seq<char>) -> Seq<char> {
    "{"@ + key + "}"@
}

/// A template with the names of `vals` substituted, one after another.
pub open spec fn substituted(t: Seq<char>, vals: Seq<(Seq<char>, Seq<char>)>) -> Seq<char>
    decreases vals.len(),
{
    if vals.len() == 0 {
        t
    } else {
        replace(substituted(t, vals.drop_last()), braced(vals.last().0), vals.last().1)
    }
}

/// The name in a template that is nothing but a name in braces.
pub open spec fn bare_key(t: Seq<char>) -> Option<Seq<char>> {
    if t.len() >= 2 && t[0] == '{' && t.last() == '}' && is_name(t.subrange(1, t.len() - 1)) {
        Some(t.subrange(1, t.len() - 1))
    } else {
        None
    }
}

/// The text has no braces.
pub open spec fn is_name(s: Seq<char>) -> bool {
    !s.contains('{') && !s.contains('}')
}

/// The argument list after one more template. A bare name without a value
/// takes a flag before it along.
pub open spec fn after_template(
    out: Seq<Seq<char>>,
    t: Seq<char>,
    vals: Seq<(Seq<char>, Seq<char>)>,
) -> Seq<Seq<char>> {
    match bare_key(t) {
        Some(key) => if value_of(vals, key) is None {
            if out.len() > 0 && out.last().len() > 0 && out.last()[0] == '-' {
                out.drop_last()
            } else {
                out
            }
        } else {
            out.push(substituted(t, vals))
        },
        None => out.push(substituted(t, vals)),
    }
}

/// The argument list of a list of templates.
pub open spec fn rendered(ts: Seq<Seq<char>>, vals: Seq<(Seq<char>, Seq<char>)>) -> Seq<Seq<char>>
    decreases ts.len(),
{
    if ts.len() == 0 {
        Seq::empty()
    } else {
        after_template(rendered(ts.drop_last(), vals), ts.last(), vals)
    }
}

/// The templates of a manifest's argument list.
pub open spec fn argv_templates(m: RuntimeManifest) -> Seq<Seq<char>> {
    if m.argv_template@.len() == 0 {
        seq!["--model"@, "{model}"@, "--port"@, "{port}"@]
    } else {
        texts(m.argv_template@)
    }
}

/// A manifest's environment with the names of `vals` substituted.
pub open spec fn rendered_env(
    env: Seq<(Seq<char>, Seq<char>)>,
    vals: Seq<(Seq<char>, Seq<char>)>,
) -> Seq<(Seq<char>, Seq<char>)> {
    Seq::new(env.len(), |i: int| (env[i].0, substituted(env[i].1, vals)))
}

/// The names in braces of a template, left to right.
pub open spec fn names_in(t: Seq<char>) -> Seq<Seq<char>>
    decreases t.len(),
{
    let open = until(t, '{') as int;
    if 0 <= open < t.len() {
        let after = t.skip(open + 1);
        let close = until(after, '}') as int;
        if 0 <= close < after.len() {
            seq![after.take(close)] + names_in(after.skip(close + 1))
        } else {
            Seq::empty()
        }
    } else {
        Seq::empty()
    }
}

/// A template may use the name.
pub open spec fn is_declared(m: RuntimeManifest, name: Seq<char>) -> bool {
    template_builtins().contains(name) || exists|i: int|
        0 <= i < m.configuration@.len() && (#[trigger] m.configuration@[i]).key@ == name
}

/// The first of a list of names that a template may not use.
pub open spec fn first_undeclared(m: RuntimeManifest, names: Seq<Seq<char>>) -> Option<Seq<char>>
    decreases names.len(),
{
    if names.len() == 0 {
        None
    } else if !is_declared(m, names[0]) {
        Some(names[0])
    } else {
        first_undeclared(m, names.drop_first())
    }
}

/// The first argument template at or after `i` that uses an undeclared name.
pub open spec fn argv_fault(m: RuntimeManifest, i: int) -> Option<(int, Seq<char>)>
    decreases m.argv_template@.len() - i,
{
    if i < 0 || i >= m.argv_template@.len() {
        None
    } else {
        match first_undeclared(m, names_in(m.argv_template@[i]@)) {
            Some(name) => Some((i, name)),
            None => argv_fault(m, i + 1),
        }
    }
}

/// The first environment value at or after `i` that uses an undeclared name.
pub open spec fn env_fault(m: RuntimeManifest, i: int) -> Option<(int, Seq<char>)>
    decreases m.env@.len() - i,
{
    if i < 0 || i >= m.env@.len() {
        None
    } else {
        match first_undeclared(m, names_in(m.env@[i].1)) {
            Some(name) => Some((i, name)),
            None => env_fault(m, i + 1),
        }
    }
}

/// What is wrong with the names that a manifest's templates use.
pub open spec fn manifest_fault(m: RuntimeManifest) -> Option<Seq<char>> {
    match argv_fault(m, 0) {
        Some((i, name)) => Some(
            "argv_template["@ + decimal(i as nat) + "] '"@ + m.argv_template@[i]@
                + "': unknown placeholder '{"@ + name
                + "}' (declare it in configuration or use model/host/port/ctx/alias)"@,
        ),
        None => match env_fault(m, 0) {
            Some((i, name)) => Some(
                "env "@ + m.env@[i].0 + ": unknown placeholder '{"@ + name + "}'"@,
            ),
            None => None,
        },
    }
}

fn brace(key: &str) -> (r: String)
    ensures
        r@ == braced(key@),
{
    let mut r = owned("{");
    r.append(key);
    r.append("}");
    r
}

/// Substitutes the names of `vals`; other braces stay as they are.
pub fn subst(t: &str, vals: &Params) -> (r: String)
    ensures
        r@ == substituted(t@, vals@),
{
    let mut out = owned(t);
    let mut i: usize = 0;
    assert(vals@.take(0) =~= Seq::<(Seq<char>, Seq<char>)>::empty());
    while i < vals.len()
        invariant
            i <= vals@.len(),
            out@ == substituted(t@, vals@.take(i as int)),
        decreases vals@.len() - i,
    {
        let (k, v) = vals.entry(i);
        let b = brace(k);
        assert(vals@.take(i + 1).drop_last() =~= vals@.take(i as int));
        proof {
            reveal_strlit("{");
            reveal_strlit("}");
        }
        out = str_replace(out.as_str(), b.as_str(), v);
        i = i + 1;
    }
    assert(vals@.take(i as int) =~= vals@);
    out
}

/// The name in a template that is nothing but a name in braces.
pub fn bare_placeholder(t: &str) -> (r: Option<String>)
    ensures
        opt_text(r) == bare_key(t@),
{
    let v = to_chars(t);
    if v.len() < 2 || v[0] != '{' || v[v.len() - 1] != '}' {
        return None;
    }
    let ghost s = v@.subrange(1, v@.len() - 1);
    let mut i: usize = 1;
    while i < v.len() - 1
        invariant
            2 <= v@.len(),
            v@ == t@,
            s == v@.subrange(1, v@.len() - 1),
            1 <= i <= v@.len() - 1,
            forall|j: int| 0 <= j < i - 1 ==> #[trigger] s[j] != '{' && s[j] != '}',
        decreases v@.len() - i,
    {
        assert(s[i - 1] == v@[i as int]);
        if v[i] == '{' || v[i] == '}' {
            return None;
        }
        i = i + 1;
    }
    Some(slice_string(&v, 1, v.len() - 1))
}

/// The names in braces of a template, left to right.
pub fn placeholders(t: &str) -> (r: Vec<String>)
    ensures
        texts(r@) == names_in(t@),
{
    let v = to_chars(t);
    let mut r: Vec<String> = Vec::new();
    let mut i: usize = 0;
    assert(v@.skip(0) =~= t@);
    assert(texts(r@) + names_in(v@.skip(0)) =~= names_in(t@));
    loop
        invariant
            v@ == t@,
            i <= v@.len(),
            texts(r@) + names_in(v@.skip(i as int)) == names_in(t@),
        decreases v@.len() - i,
    {
        let ghost rest = v@.skip(i as int);
        let open = chars_until(&v, '{', i);
        if open == v.len() {
            assert(names_in(rest) =~= Seq::<Seq<char>>::empty());
            assert(texts(r@) + names_in(rest) =~= texts(r@));
            return r;
        }
        let close = chars_until(&v, '}', open + 1);
        let ghost after = rest.skip(open - i + 1);
        assert(after =~= v@.skip(open + 1));
        if close == v.len() {
            assert(names_in(rest) =~= Seq::<Seq<char>>::empty());
            assert(texts(r@) + names_in(rest) =~= texts(r@));
            return r;
        }
        let name = slice_string(&v, open + 1, close);
        assert(after.take(close - open - 1) =~= name@);
        assert(after.skip(close - open - 1 + 1) =~= v@.skip(close + 1));
        let ghost before = texts(r@);
        r.push(name);
        assert(texts(r@) =~= before + seq![name@]);
        assert(texts(r@) + names_in(v@.skip(close + 1)) =~= before + (seq![name@] + names_in(
            v@.skip(close + 1),
        )));
        i = close + 1;
    }
}

impl RuntimeManifest {
    pub fn model_source(&self) -> (r: ModelSource)
        ensures
            r == match self.model_source {
                ModelSourceSer::LocalPath => ModelSource::LocalPath,
                ModelSourceSer::OllamaStore => ModelSource::OllamaStore,
            },
    {
        match self.model_source {
            ModelSourceSer::LocalPath => ModelSource::LocalPath,
            ModelSourceSer::OllamaStore => ModelSource::OllamaStore,
        }
    }

    pub fn protocol(&self) -> (r: EngineProtocol)
        ensures
            r == match self.protocol {
                ProtocolSer::OpenAiChat => EngineProtocol::OpenAiChat,
                ProtocolSer::OllamaChat => EngineProtocol::OllamaChat,
            },
    {
        match self.protocol {
            ProtocolSer::OpenAiChat => EngineProtocol::OpenAiChat,
            ProtocolSer::OllamaChat => EngineProtocol::OllamaChat,
        }
    }

    /// Whether the runtime spills weights to RAM.
    pub fn is_offload(&self) -> (r: bool)
        ensures
            r == texts(self.capabilities@).contains("offload"@),
    {
        has_text(&self.capabilities, "offload")
    }

    /// Whether the runtime can load an artifact.
    pub fn supports(&self, format: &ModelFormat, arch: Option<&str>) -> (r: bool)
        ensures
            r == supports_spec(
                *self,
                *format,
                opt_str(arch),
            ),
    {
        if self.model_source != ModelSourceSer::LocalPath {
            return false;
        }
        if self.formats.len() > 0 && !has_text(&self.formats, format.tag()) {
            return false;
        }
        if self.architectures.len() > 0 {
            let arch = match arch {
                Some(a) => a,
                None => "?",
            };
            if !has_text(&self.architectures, arch) {
                return false;
            }
        }
        true
    }

    /// The values that every launch has.
    pub fn builtin_values(model: &str, host: &str, port: u16, ctx: u32, alias: &str) -> (r: Params)
        ensures
            r@ == builtin_values_spec(model@, host@, port, ctx, alias@),
    {
        let port_text = decimal_of(port as u64);
        let ctx_text = decimal_of(ctx as u64);
        let mut pairs: Vec<(String, String)> = Vec::new();
        pairs.push((owned("model"), owned(model)));
        pairs.push((owned("host"), owned(host)));
        pairs.push((owned("port"), port_text));
        pairs.push((owned("ctx"), ctx_text));
        pairs.push((owned("alias"), owned(alias)));
        assert(crate::params::pair_texts(pairs@) =~= launch_pairs(model@, host@, port, ctx, alias@));
        Params::from_pairs(&pairs)
    }

    /// The tunables at their defaults.
    pub fn default_params(&self) -> (r: Params)
        ensures
            r@ == default_params_spec(*self),
    {
        let mut pairs: Vec<(String, String)> = Vec::new();
        let mut i: usize = 0;
        assert(crate::params::pair_texts(pairs@) =~= Seq::<(Seq<char>, Seq<char>)>::empty());
        while i < self.configuration.len()
            invariant
                i <= self.configuration@.len(),
                crate::params::pair_texts(pairs@) == defaults_upto(self.configuration@, i as int),
            decreases self.configuration@.len() - i,
        {
            let c = &self.configuration[i];
            let ghost before = crate::params::pair_texts(pairs@);
            match &c.default {
                Some(d) => {
                    pairs.push((owned(c.key.as_str()), owned(d.as_str())));
                    assert(crate::params::pair_texts(pairs@) =~= before.push((c.key@, d@)));
                },
                None => {},
            }
            i = i + 1;
        }
        Params::from_pairs(&pairs)
    }

    /// The defaults with the overrides on top.
    pub fn effective_params(&self, overrides: &Params) -> (r: Params)
        ensures
            r@ == with_values(default_params_spec(*self), overrides@),
    {
        let mut r = self.default_params();
        r.set_all(overrides);
        r
    }

    fn values(
        &self,
        model: &str,
        host: &str,
        port: u16,
        ctx: u32,
        alias: &str,
        overrides: &Params,
    ) -> (r: Params)
        ensures
            r@ == launch_values(*self, model@, host@, port, ctx, alias@, overrides@),
    {
        let mut r = RuntimeManifest::builtin_values(model, host, port, ctx, alias);
        let p = self.effective_params(overrides);
        r.set_all(&p);
        r
    }

    /// Renders the argument list of a launch.
    pub fn render_argv(
        &self,
        model: &str,
        host: &str,
        port: u16,
        ctx: u32,
        alias: &str,
        overrides: &Params,
    ) -> (r: Vec<String>)
        ensures
            texts(r@) == rendered(
                argv_templates(*self),
                launch_values(*self, model@, host@, port, ctx, alias@, overrides@),
            ),
    {
        let vals = self.values(model, host, port, ctx, alias, overrides);
        let tmpl = if self.argv_template.len() == 0 {
            let mut d: Vec<String> = Vec::new();
            d.push(owned("--model"));
            d.push(owned("{model}"));
            d.push(owned("--port"));
            d.push(owned("{port}"));
            assert(texts(d@) =~= seq!["--model"@, "{model}"@, "--port"@, "{port}"@]);
            d
        } else {
            clone_texts(&self.argv_template)
        };
        let ghost ts = texts(tmpl@);
        let mut out: Vec<String> = Vec::new();
        let mut i: usize = 0;
        assert(ts.take(0) =~= Seq::<Seq<char>>::empty());
        assert(texts(out@) =~= Seq::<Seq<char>>::empty());
        while i < tmpl.len()
            invariant
                ts == texts(tmpl@),
                i <= tmpl@.len(),
                texts(out@) == rendered(ts.take(i as int), vals@),
            decreases tmpl@.len() - i,
        {
            let t = tmpl[i].as_str();
            let ghost before = texts(out@);
            assert(ts.take(i + 1).drop_last() =~= ts.take(i as int));
            assert(ts.take(i + 1).last() == t@);
            let missing = match bare_placeholder(t) {
                Some(key) => vals.get(key.as_str()).is_none(),
                None => false,
            };
            if missing {
                if out.len() > 0 && begins_with(out[out.len() - 1].as_str(), '-') {
                    assert(before.last() == out@[out@.len() - 1]@);
                    out.pop();
                    assert(texts(out@) =~= before.drop_last());
                }
            } else {
                let s = subst(t, &vals);
                out.push(s);
                assert(texts(out@) =~= before.push(s@));
            }
            i = i + 1;
        }
        assert(ts.take(i as int) =~= ts);
        out
    }

    /// Renders the environment of a launch.
    pub fn render_env(
        &self,
        model: &str,
        host: &str,
        port: u16,
        ctx: u32,
        alias: &str,
        overrides: &Params,
    ) -> (r: Vec<(String, String)>)
        ensures
            crate::params::pair_texts(r@) == rendered_env(
                self.env@,
                launch_values(*self, model@, host@, port, ctx, alias@, overrides@),
            ),
    {
        let vals = self.values(model, host, port, ctx, alias, overrides);
        let mut r: Vec<(String, String)> = Vec::new();
        let mut i: usize = 0;
        while i < self.env.len()
            invariant
                i <= self.env@.len(),
                r@.len() == i,
                forall|j: int|
                    0 <= j < i ==> (#[trigger] r@[j]).0@ == self.env@[j].0 && r@[j].1@
                        == substituted(self.env@[j].1, vals@),
            decreases self.env@.len() - i,
        {
            let (k, v) = self.env.entry(i);
            r.push((owned(k), subst(v, &vals)));
            i = i + 1;
        }
        assert(crate::params::pair_texts(r@) =~= rendered_env(self.env@, vals@));
        r
    }

    fn declares(&self, name: &str) -> (r: bool)
        ensures
            r == is_declared(*self, name@),
    {
        if is_template_builtin(name) {
            return true;
        }
        let mut i: usize = 0;
        while i < self.configuration.len()
            invariant
                i <= self.configuration@.len(),
                forall|j: int| 0 <= j < i ==> (#[trigger] self.configuration@[j]).key@ != name@,
            decreases self.configuration@.len() - i,
        {
            if same(self.configuration[i].key.as_str(), name) {
                return true;
            }
            i = i + 1;
        }
        false
    }

    fn undeclared_in(&self, t: &str) -> (r: Option<String>)
        ensures
            opt_text(r) == first_undeclared(*self, names_in(t@)),
    {
        let names = placeholders(t);
        let ghost ns = texts(names@);
        let mut i: usize = 0;
        assert(ns.skip(0) =~= ns);
        while i < names.len()
            invariant
                ns == texts(names@),
                ns == names_in(t@),
                i <= names@.len(),
                first_undeclared(*self, ns) == first_undeclared(*self, ns.skip(i as int)),
            decreases names@.len() - i,
        {
            assert(ns.skip(i as int)[0] == names@[i as int]@);
            assert(ns.skip(i as int).drop_first() =~= ns.skip(i + 1));
            if !self.declares(names[i].as_str()) {
                return Some(owned(names[i].as_str()));
            }
            i = i + 1;
        }
        None
    }

    /// Checks that the templates use declared names only.
    pub fn validate(&self) -> (r: Result<(), String>)
        ensures
            match r {
                Ok(_) => manifest_fault(*self) is None,
                Err(e) => manifest_fault(*self) == Some(e@),
            },
    {
        let mut i: usize = 0;
        while i < self.argv_template.len()
            invariant
                i <= self.argv_template@.len(),
                argv_fault(*self, 0) == argv_fault(*self, i as int),
            decreases self.argv_template@.len() - i,
        {
            match self.undeclared_in(self.argv_template[i].as_str()) {
                Some(name) => {
                    let mut e = owned("argv_template[");
                    e.append(decimal_of(i as u64).as_str());
                    e.append("] '");
                    e.append(self.argv_template[i].as_str());
                    e.append("': unknown placeholder '{");
                    e.append(name.as_str());
                    e.append("}' (declare it in configuration or use model/host/port/ctx/alias)");
                    return Err(e);
                },
                None => {},
            }
            i = i + 1;
        }
        let mut j: usize = 0;
        while j < self.env.len()
            invariant
                j <= self.env@.len(),
                argv_fault(*self, 0) is None,
                env_fault(*self, 0) == env_fault(*self, j as int),
            decreases self.env@.len() - j,
        {
            let (k, v) = self.env.entry(j);
            match self.undeclared_in(v) {
                Some(name) => {
                    let mut e = owned("env ");
                    e.append(k);
                    e.append(": unknown placeholder '{");
                    e.append(name.as_str());
                    e.append("}'");
                    return Err(e);
                },
                None => {},
            }
            j = j + 1;
        }
        Ok(())
    }
}

/// Whether a string begins with a character.
pub fn begins_with(s: &str, c: char) -> (r: bool)
    ensures
        r == (s@.len() > 0 && s@[0] == c),
{
    let n = s.unicode_len();
    n > 0 && s.get_char(0) == c
}


/// An override of a tunable wins over its default, a default over a value that
/// every launch has.
pub proof fn law_override_wins(
    m: RuntimeManifest,
    model: Seq<char>,
    host: Seq<char>,
    port: u16,
    ctx: u32,
    alias: Seq<char>,
    overrides: Seq<(Seq<char>, Seq<char>)>,
    key: Seq<char>,
)
    requires
        ascending(overrides),
    ensures
        value_of(launch_values(m, model, host, port, ctx, alias, overrides), key) == match value_of(
            overrides,
            key,
        ) {
            Some(v) => Some(v),
            None => match value_of(default_params_spec(m), key) {
                Some(v) => Some(v),
                None => value_of(builtin_values_spec(model, host, port, ctx, alias), key),
            },
        },
{
    let d = default_params_spec(m);
    let b = builtin_values_spec(model, host, port, ctx, alias);
    law_with_values_ascending(
        Seq::empty(),
        defaults_upto(m.configuration@, m.configuration@.len() as int),
    );
    law_with_values_ascending(d, overrides);
    law_values_layered(d, overrides, key);
    law_values_layered(b, with_values(d, overrides), key);
}

/// One row of the registry.
#[derive(Debug, Clone, PartialEq)]
pub struct RuntimeRow {
    pub id: String,
    pub display: String,
    pub status: String,
    pub default_port: u16,
    pub test_port: u16,
    pub formats: Vec<String>,
    pub capabilities: Vec<String>,
    pub custom: bool,
}

/// The row is that of a manifest.
pub open spec fn is_row_of(r: RuntimeRow, m: RuntimeManifest, custom: bool) -> bool {
    &&& r.id@ == m.id@
    &&& r.display@ == m.display@
    &&& r.status@ == m.status.spec_tag()
    &&& r.default_port == m.default_port
    &&& r.test_port == m.test_port
    &&& texts(r.formats@) == texts(m.formats@)
    &&& texts(r.capabilities@) == texts(m.capabilities@)
    &&& r.custom == custom
}

impl RuntimeRow {
    /// The row of a manifest.
    pub fn of(m: &RuntimeManifest, custom: bool) -> (r: RuntimeRow)
        ensures
            is_row_of(r, *m, custom),
    {
        RuntimeRow {
            id: owned(m.id.as_str()),
            display: owned(m.display.as_str()),
            status: owned(m.status.tag()),
            default_port: m.default_port,
            test_port: m.test_port,
            formats: clone_texts(&m.formats),
            capabilities: clone_texts(&m.capabilities),
            custom,
        }
    }
}

/// A name in a directory.
pub open spec fn path_in(dir: Seq<char>, name: Seq<char>) -> Seq<char> {
    if dir.len() == 0 {
        name
    } else if dir.last() == '/' {
        dir + name
    } else {
        dir + "/"@ + name
    }
}

/// A name in a directory.
pub fn path_join(dir: &str, name: &str) -> (r: String)
    ensures
        r@ == path_in(dir@, name@),
{
    let n = dir.unicode_len();
    if n == 0 {
        return owned(name);
    }
    let mut r = owned(dir);
    if dir.get_char(n - 1) != '/' {
        r.append("/");
    }
    r.append(name);
    r
}

/// The candidate names a path, not a program to be searched for.
pub open spec fn is_explicit(candidate: Seq<char>) -> bool {
    candidate.contains('/') || candidate.contains('\\')
}

/// The paths at which a candidate may be: itself where it is a path, else its
/// name in each of the directories.
pub open spec fn candidate_paths(candidate: Seq<char>, dirs: Seq<Seq<char>>) -> Seq<Seq<char>> {
    if is_explicit(candidate) {
        seq![candidate]
    } else {
        Seq::new(dirs.len(), |i: int| path_in(dirs[i], candidate))
    }
}

/// The first of the paths that is a file.
pub open spec fn first_file(paths: Seq<Seq<char>>, files: Seq<Seq<char>>) -> Option<Seq<char>>
    decreases paths.len(),
{
    if paths.len() == 0 {
        None
    } else if files.contains(paths[0]) {
        Some(paths[0])
    } else {
        first_file(paths.drop_first(), files)
    }
}

/// The first of the candidates that resolves, as the path to which it does.
pub open spec fn first_resolved(
    candidates: Seq<Seq<char>>,
    dirs: Seq<Seq<char>>,
    files: Seq<Seq<char>>,
) -> Option<Seq<char>>
    decreases candidates.len(),
{
    if candidates.len() == 0 {
        None
    } else {
        match first_file(candidate_paths(candidates[0], dirs), files) {
            Some(p) => Some(p),
            None => first_resolved(candidates.drop_first(), dirs, files),
        }
    }
}

/// The candidates in the order in which they are tried: the configured path
/// first.
pub open spec fn all_candidates(over: Option<Seq<char>>, candidates: Seq<Seq<char>>) -> Seq<
    Seq<char>,
> {
    match over {
        Some(o) => seq![o] + candidates,
        None => candidates,
    }
}

fn has_char(v: &Vec<char>, c: char) -> (r: bool)
    ensures
        r == v@.contains(c),
{
    let at = chars_until(v, c, 0);
    if at < v.len() {
        assert(v@[at as int] == c);
    }
    at < v.len()
}

/// The paths at which a candidate may be, in the order in which they are tried.
pub fn lookup_paths(candidate: &str, path_dirs: &Vec<String>) -> (r: Vec<String>)
    ensures
        texts(r@) == candidate_paths(candidate@, texts(path_dirs@)),
{
    let v = to_chars(candidate);
    let mut r: Vec<String> = Vec::new();
    if has_char(&v, '/') || has_char(&v, '\\') {
        r.push(owned(candidate));
        assert(texts(r@) =~= seq![candidate@]);
        return r;
    }
    let mut i: usize = 0;
    while i < path_dirs.len()
        invariant
            i <= path_dirs@.len(),
            r@.len() == i,
            forall|j: int|
                0 <= j < i ==> (#[trigger] r@[j])@ == path_in(path_dirs@[j]@, candidate@),
        decreases path_dirs@.len() - i,
    {
        r.push(path_join(path_dirs[i].as_str(), candidate));
        i = i + 1;
    }
    assert(texts(r@) =~= candidate_paths(candidate@, texts(path_dirs@)));
    r
}

/// Resolves one candidate, given the paths that are files.
pub fn resolve_one(candidate: &str, path_dirs: &Vec<String>, files: &Vec<String>) -> (r: Option<
    String,
>)
    ensures
        opt_text(r) == first_file(candidate_paths(candidate@, texts(path_dirs@)), texts(files@)),
{
    let paths = lookup_paths(candidate, path_dirs);
    let ghost ps = texts(paths@);
    let mut i: usize = 0;
    assert(ps.skip(0) =~= ps);
    while i < paths.len()
        invariant
            ps == texts(paths@),
            ps == candidate_paths(candidate@, texts(path_dirs@)),
            i <= paths@.len(),
            first_file(ps, texts(files@)) == first_file(ps.skip(i as int), texts(files@)),
        decreases paths@.len() - i,
    {
        assert(ps.skip(i as int)[0] == paths@[i as int]@);
        assert(ps.skip(i as int).drop_first() =~= ps.skip(i + 1));
        if has_text(files, paths[i].as_str()) {
            return Some(owned(paths[i].as_str()));
        }
        i = i + 1;
    }
    None
}

/// Resolves a backend's executable: the configured path first, then the
/// candidates. `files` are the paths that are files.
pub fn find_bin(
    candidates: &Vec<String>,
    path_dirs: &Vec<String>,
    engine_bin_override: Option<&str>,
    files: &Vec<String>,
) -> (r: Option<String>)
    ensures
        opt_text(r) == first_resolved(
            all_candidates(
                opt_str(engine_bin_override),
                texts(candidates@),
            ),
            texts(path_dirs@),
            texts(files@),
        ),
{
    let ghost cs = texts(candidates@);
    let ghost ds = texts(path_dirs@);
    let ghost fs = texts(files@);
    let ghost want = first_resolved(
        all_candidates(
            opt_str(engine_bin_override),
            cs,
        ),
        ds,
        fs,
    );
    match engine_bin_override {
        Some(o) => {
            match resolve_one(o, path_dirs, files) {
                Some(p) => {
                    return Some(p);
                },
                None => {
                    assert((seq![o@] + cs).drop_first() =~= cs);
                },
            }
        },
        None => {},
    }
    let mut i: usize = 0;
    assert(cs.skip(0) =~= cs);
    while i < candidates.len()
        invariant
            cs == texts(candidates@),
            ds == texts(path_dirs@),
            fs == texts(files@),
            i <= candidates@.len(),
            want == first_resolved(cs.skip(i as int), ds, fs),
            want == first_resolved(all_candidates(opt_str(engine_bin_override), cs), ds, fs),
        decreases candidates@.len() - i,
    {
        assert(cs.skip(i as int)[0] == candidates@[i as int]@);
        assert(cs.skip(i as int).drop_first() =~= cs.skip(i + 1));
        match resolve_one(candidates[i].as_str(), path_dirs, files) {
            Some(p) => {
                return Some(p);
            },
            None => {},
        }
        i = i + 1;
    }
    None
}

/// Whether a backend's executable resolves.
pub fn is_installed(
    candidates: &Vec<String>,
    path_dirs: &Vec<String>,
    engine_bin_override: Option<&str>,
    files: &Vec<String>,
) -> (r: bool)
    ensures
        r == first_resolved(
            all_candidates(
                opt_str(engine_bin_override),
                texts(candidates@),
            ),
            texts(path_dirs@),
            texts(files@),
        ) is Some,
{
    find_bin(candidates, path_dirs, engine_bin_override, files).is_some()
}

/// Whether a runtime can be launched, and from where.
#[derive(Debug, Clone, PartialEq)]
pub struct RuntimeAvailability {
    pub id: String,
    pub bin: Option<String>,
    pub installed: bool,
}

/// The availability of a runtime.
pub fn availability_for(
    manifest: &RuntimeManifest,
    engine_bin_override: Option<&str>,
    path_dirs: &Vec<String>,
    files: &Vec<String>,
) -> (r: RuntimeAvailability)
    ensures
        r.id@ == manifest.id@,
        opt_text(r.bin) == first_resolved(
            all_candidates(
                opt_str(engine_bin_override),
                texts(manifest.bin_candidates@),
            ),
            texts(path_dirs@),
            texts(files@),
        ),
        r.installed == (r.bin is Some),
{
    let bin = find_bin(&manifest.bin_candidates, path_dirs, engine_bin_override, files);
    RuntimeAvailability { id: owned(manifest.id.as_str()), installed: bin.is_some(), bin }
}

/// What resolves is a file.
pub proof fn law_resolved_is_file(
    candidates: Seq<Seq<char>>,
    dirs: Seq<Seq<char>>,
    files: Seq<Seq<char>>,
)
    ensures
        match first_resolved(candidates, dirs, files) {
            Some(p) => files.contains(p),
            None => true,
        },
    decreases candidates.len(),
{
    if candidates.len() > 0 {
        lemma_first_file(candidate_paths(candidates[0], dirs), files);
        law_resolved_is_file(candidates.drop_first(), dirs, files);
    }
}

proof fn lemma_first_file(paths: Seq<Seq<char>>, files: Seq<Seq<char>>)
    ensures
        match first_file(paths, files) {
            Some(p) => files.contains(p) && paths.contains(p),
            None => forall|i: int| 0 <= i < paths.len() ==> !files.contains(#[trigger] paths[i]),
        },
    decreases paths.len(),
{
    if paths.len() > 0 {
        let rest = paths.drop_first();
        lemma_first_file(rest, files);
        if !files.contains(paths[0]) {
            match first_file(rest, files) {
                Some(p) => {
                    let i = choose|i: int| 0 <= i < rest.len() && rest[i] == p;
                    assert(paths[i + 1] == p);
                },
                None => {
                    assert forall|i: int| 0 <= i < paths.len() implies !files.contains(
                        #[trigger] paths[i],
                    ) by {
                        if i > 0 {
                            assert(paths[i] == rest[i - 1]);
                        }
                    }
                },
            }
        } else {
            assert(paths[0] == first_file(paths, files)->0);
        }
    }
}

} // verus!
