//! The engines, the registry of runtimes, and what is asked of them.
use vstd::prelude::*;

use crate::engines::health::measured_rate;
use crate::engines::runner::{
    build_prompt, node_to_matrix_row, prompt_lines, upstream_lines, GenRequest, StatelessRunner,
};
use crate::engines::workflow::{node_index_from, text_at_gate, NodeResult};
use crate::fit::available_vram_mb;
use crate::fitplan::{max_ctx_for, plan_for_runtime, DerivedLoadout};
use crate::laws::launch::lemma_first_with_id;
use crate::laws::text::lemma_parted;
use crate::library::explain_fit;
use crate::measure::Measure;
use crate::model::ModelMeta;
use crate::order::{in_order, lemma_permutation_hits};
use crate::profile::{Engine, EngineDescriptor, EngineProtocol, ModelSource, Profile};
use crate::runtime::{
    argv_fault, env_fault, first_undeclared, is_declared, names_in, RuntimeManifest, RuntimeStatus,
};
use crate::runtime_registry::{
    accept_manifest, all_manifests, custom_positions, id_below, is_builtin_id,
    load_custom_manifests, same_manifest,
};
use crate::store::bench::MatrixRow;
use crate::text::{
    contains, decimal, has_prefix, join, lex_below, lines, opt_text, parse_number, texts, trim,
};
use crate::workflow::{EdgePredicate, Message, Workflow, WorkflowNode};
use crate::workload::{labelled_from, task_evaluator, task_from, workload_views, Workload};

verus! {

/// The engines, each with its names, its ports, its unit, its models and its
/// protocol.
pub proof fn law_engines(e: Engine, d: EngineDescriptor)
    requires
        call_ensures(Engine::descriptor, (&e,), d),
    ensures
        e == Engine::LlamaCpp ==> d.id@ == "llamacpp"@ && d.display@ == "llama.cpp"@
            && d.default_port == 18000 && d.test_port == 18999 && d.unit_name@
            == "llama-server.service"@ && !d.is_system_service && d.model_source
            == ModelSource::LocalPath && d.protocol == EngineProtocol::OpenAiChat,
        e == Engine::FreeToken ==> d.id@ == "freetoken"@ && d.display@ == "FreeToken"@
            && d.default_port == 1919 && d.test_port == 18998 && d.unit_name@
            == "freetoken.service"@ && !d.is_system_service && d.model_source
            == ModelSource::LocalPath && d.protocol == EngineProtocol::OpenAiChat,
        e == Engine::Ollama ==> d.id@ == "ollama"@ && d.display@ == "Ollama"@ && d.default_port
            == 11434 && d.test_port == 18997 && d.unit_name@ == "ollama.service"@
            && d.is_system_service && d.model_source == ModelSource::OllamaStore && d.protocol
            == EngineProtocol::OllamaChat,
        e == Engine::UncensoredLlamaCpp ==> d.id@ == "uncensored-llamacpp"@ && d.display@
            == "llama.cpp (uncensored)"@ && d.default_port == 18001 && d.test_port == 18996
            && d.unit_name@ == "llama-server-uncensored.service"@ && !d.is_system_service
            && d.model_source == ModelSource::LocalPath && d.protocol == EngineProtocol::OpenAiChat,
{
}

/// An engine is found by its id, and by nothing else.
pub proof fn law_engine_by_id(id: &str, r: Option<Engine>, e: Engine, d: EngineDescriptor)
    requires
        call_ensures(Engine::parse, (id,), r),
        call_ensures(Engine::descriptor, (&e,), d),
    ensures
        id@ == d.id@ ==> r == Some(e),
        r == Some(e) ==> id@ == d.id@,
{
    crate::profile::law_engine_id_round_trip(e);
}

/// The contexts to try are the configured one and, behind it, the ladder.
pub proof fn law_ladder(p: &Profile, r: Vec<u32>, i: int)
    requires
        call_ensures(Profile::active_ladder, (p,), r),
    ensures
        r@.len() == p.ctx_ladder@.len() + 1,
        r@[0] == p.ctx_size,
        0 <= i < p.ctx_ladder@.len() ==> r@[i + 1] == p.ctx_ladder@[i],
{
}

/// A loadout for a runtime has its largest context that fits, its port, and
/// the artifact; it is tried on the runtime's test port. It fails where no
/// context fits, and for a name that is no runtime.
pub proof fn law_loadout_for_a_runtime(
    meta: &ModelMeta,
    id: &str,
    ms: &Vec<RuntimeManifest>,
    vram_mb: u64,
    r: Result<(DerivedLoadout, u16), String>,
    e: Option<Engine>,
    best: Option<(u64, crate::fit::FitBreakdown)>,
)
    requires
        call_ensures(plan_for_runtime, (meta, id, ms, vram_mb), r),
        call_ensures(Engine::parse, (id,), e),
        e is Some,
        call_ensures(max_ctx_for, (meta, e->0 == Engine::FreeToken, vram_mb), best),
    ensures
        r is Ok <==> best is Some,
        r is Ok ==> {
            let (d, port) = r->Ok_0;
            &&& d.max_ctx == (best->0).0
            &&& d.profile.ctx_size == (best->0).0
            &&& d.profile.model@ == meta.path@
            &&& d.profile.alias@ == meta.name@
            &&& d.profile.engine == e->0
            &&& d.profile.runtime_id is None
            &&& e->0 == Engine::LlamaCpp ==> d.profile.port == 18000 && port == 18999
            &&& e->0 == Engine::FreeToken ==> d.profile.port == 1919 && port == 18998
                && opt_text(d.profile.ft_backend) == Some("offload"@)
            &&& e->0 == Engine::Ollama ==> d.profile.port == 11434 && port == 18997
            &&& e->0 == Engine::UncensoredLlamaCpp ==> d.profile.port == 18001 && port == 18996
            &&& e->0 != Engine::FreeToken ==> d.profile.ft_backend is None
        },
{
}

/// A custom runtime is launched under its own id and ports.
pub proof fn law_loadout_for_a_custom_runtime(
    meta: &ModelMeta,
    id: &str,
    ms: &Vec<RuntimeManifest>,
    vram_mb: u64,
    r: Result<(DerivedLoadout, u16), String>,
    e: Option<Engine>,
    i: int,
    best: Option<(u64, crate::fit::FitBreakdown)>,
)
    requires
        call_ensures(plan_for_runtime, (meta, id, ms, vram_mb), r),
        call_ensures(Engine::parse, (id,), e),
        e is None,
        0 <= i < ms@.len(),
        ms@[i].id@ == id@,
        forall|j: int| 0 <= j < i ==> (#[trigger] ms@[j]).id@ != id@,
        call_ensures(
            max_ctx_for,
            (meta, texts(ms@[i].capabilities@).contains("offload"@), vram_mb),
            best,
        ),
    ensures
        r is Ok <==> best is Some,
        r is Ok ==> {
            let (d, port) = r->Ok_0;
            &&& d.profile.ctx_size == (best->0).0
            &&& d.profile.model@ == meta.path@
            &&& opt_text(d.profile.runtime_id) == Some(id@)
            &&& d.profile.port == ms@[i].default_port
            &&& port == ms@[i].test_port
        },
{
    lemma_first_with_id(ms@, i, 0);
}

/// A manifest is accepted where it has an id and two different ports, and its
/// templates use no name that it does not declare; it comes out with a status
/// and a unit.
pub proof fn law_accepted_manifests(
    m: RuntimeManifest,
    path: &str,
    r: Result<RuntimeManifest, String>,
    valid: Result<(), String>,
)
    requires
        call_ensures(accept_manifest, (m, path), r),
        call_ensures(RuntimeManifest::validate, (&m,), valid),
    ensures
        r is Ok <==> trim(m.id@).len() > 0 && m.default_port != 0 && m.test_port != 0
            && m.default_port != m.test_port && valid is Ok,
        r is Ok ==> {
            let c = r->Ok_0;
            &&& c.id@ == m.id@
            &&& c.default_port == m.default_port
            &&& c.test_port == m.test_port
            &&& texts(c.argv_template@) == texts(m.argv_template@)
            &&& m.status == RuntimeStatus::Unknown ==> c.status == RuntimeStatus::Experimental
            &&& m.status != RuntimeStatus::Unknown ==> c.status == m.status
            &&& trim(m.unit_name@).len() == 0 ==> c.unit_name@ == "cyberdeck-"@ + m.id@
                + ".service"@
            &&& trim(m.unit_name@).len() > 0 ==> c.unit_name@ == m.unit_name@
        },
{
}

/// A name that a template may use: one of every launch, or a declared one.
pub open spec fn may_use(m: RuntimeManifest, name: Seq<char>) -> bool {
    ||| name == "model"@
    ||| name == "host"@
    ||| name == "port"@
    ||| name == "ctx"@
    ||| name == "alias"@
    ||| exists|i: int|
        0 <= i < m.configuration@.len() && (#[trigger] m.configuration@[i]).key@ == name
}

proof fn lemma_may_use(m: RuntimeManifest, name: Seq<char>)
    ensures
        may_use(m, name) == is_declared(m, name),
{
    let b = crate::runtime::template_builtins();
    assert(b.len() == 5);
    assert(b[0] == "model"@ && b[1] == "host"@ && b[2] == "port"@ && b[3] == "ctx"@ && b[4]
        == "alias"@);
    if b.contains(name) {
        let i = choose|i: int| 0 <= i < b.len() && b[i] == name;
        assert(0 <= i < 5);
    }
    if name == b[0] || name == b[1] || name == b[2] || name == b[3] || name == b[4] {
        assert(b.contains(name));
    }
}

/// All names in braces of a template may be used.
pub open spec fn is_sound(m: RuntimeManifest, t: Seq<char>) -> bool {
    forall|k: int| 0 <= k < names_in(t).len() ==> may_use(m, #[trigger] names_in(t)[k])
}

proof fn lemma_undeclared(m: RuntimeManifest, names: Seq<Seq<char>>)
    ensures
        first_undeclared(m, names) is None <==> forall|k: int|
            0 <= k < names.len() ==> may_use(m, #[trigger] names[k]),
    decreases names.len(),
{
    if names.len() > 0 {
        lemma_may_use(m, names[0]);
        let rest = names.drop_first();
        lemma_undeclared(m, rest);
        if forall|k: int| 0 <= k < rest.len() ==> may_use(m, #[trigger] rest[k]) {
            if may_use(m, names[0]) {
                assert forall|k: int| 0 <= k < names.len() implies may_use(
                    m,
                    #[trigger] names[k],
                ) by {
                    if k > 0 {
                        assert(rest[k - 1] == names[k]);
                    }
                }
            }
        } else {
            let k = choose|k: int| 0 <= k < rest.len() && !may_use(m, #[trigger] rest[k]);
            assert(names[k + 1] == rest[k]);
        }
    }
}

proof fn lemma_argv_sound(m: RuntimeManifest, i: int)
    requires
        0 <= i <= m.argv_template@.len(),
    ensures
        argv_fault(m, i) is None <==> forall|k: int|
            i <= k < m.argv_template@.len() ==> is_sound(m, (#[trigger] m.argv_template@[k])@),
    decreases m.argv_template@.len() - i,
{
    if i < m.argv_template@.len() {
        lemma_undeclared(m, names_in(m.argv_template@[i]@));
        assert(is_sound(m, m.argv_template@[i]@) <==> first_undeclared(
            m,
            names_in(m.argv_template@[i]@),
        ) is None);
        lemma_argv_sound(m, i + 1);
    }
}

proof fn lemma_env_sound(m: RuntimeManifest, i: int)
    requires
        0 <= i <= m.env@.len(),
    ensures
        env_fault(m, i) is None <==> forall|k: int|
            i <= k < m.env@.len() ==> is_sound(m, (#[trigger] m.env@[k]).1),
    decreases m.env@.len() - i,
{
    if i < m.env@.len() {
        lemma_undeclared(m, names_in(m.env@[i].1));
        assert(is_sound(m, m.env@[i].1) <==> first_undeclared(m, names_in(m.env@[i].1)) is None);
        lemma_env_sound(m, i + 1);
    }
}

/// A manifest is valid exactly where its templates and its environment use
/// only names that they may.
pub proof fn law_valid_manifests(m: &RuntimeManifest, r: Result<(), String>)
    requires
        call_ensures(RuntimeManifest::validate, (m,), r),
    ensures
        r is Ok <==> (forall|k: int|
            0 <= k < m.argv_template@.len() ==> is_sound(*m, (#[trigger] m.argv_template@[k])@))
            && (forall|k: int| 0 <= k < m.env@.len() ==> is_sound(*m, (#[trigger] m.env@[k]).1)),
{
    lemma_argv_sound(*m, 0);
    lemma_env_sound(*m, 0);
}

/// The names of a template stand between braces, left to right.
pub proof fn law_names_in_braces(a: Seq<char>, name: Seq<char>, b: Seq<char>)
    requires
        !a.contains('{'),
        !name.contains('}'),
    ensures
        names_in(a).len() == 0,
        names_in(a + seq!['{'] + (name + seq!['}'] + b)) == seq![name] + names_in(b),
{
    lemma_parted(a, '{', name + seq!['}'] + b);
    lemma_parted(name, '}', b);
    let t = a + seq!['{'] + (name + seq!['}'] + b);
    let after = t.skip(a.len() as int + 1);
    assert(after =~= name + seq!['}'] + b);
    assert(after.take(name.len() as int) =~= name);
    assert(after.skip(name.len() as int + 1) =~= b);
}

proof fn lemma_customs(v: Seq<RuntimeManifest>, n: int)
    requires
        0 <= n <= v.len(),
    ensures
        forall|k: int|
            0 <= k < custom_positions(v, n).len() ==> 0 <= #[trigger] custom_positions(v, n)[k] < n
                && !is_builtin_id(v[custom_positions(v, n)[k]].id@),
        forall|i: int|
            0 <= i < n && !is_builtin_id((#[trigger] v[i]).id@) ==> custom_positions(
                v,
                n,
            ).contains(i),
    decreases n,
{
    if n > 0 {
        lemma_customs(v, n - 1);
        let rest = custom_positions(v, n - 1);
        let all = custom_positions(v, n);
        assert forall|i: int| 0 <= i < n && !is_builtin_id((#[trigger] v[i]).id@) implies
            all.contains(i) by {
            if i == n - 1 {
                assert(all[rest.len() as int] == i);
            } else {
                assert(rest.contains(i));
                let k = choose|k: int| 0 <= k < rest.len() && rest[k] == i;
                assert(all[k] == i);
            }
        }
    }
}

/// One of the manifests is the same as another.
pub open spec fn has_manifest(v: Seq<RuntimeManifest>, m: RuntimeManifest) -> bool {
    exists|k: int| 0 <= k < v.len() && same_manifest(#[trigger] v[k], m)
}

/// The custom runtimes are the manifests whose ids are no engine's, by id.
pub proof fn law_custom_runtimes(
    accepted: &Vec<RuntimeManifest>,
    r: Vec<RuntimeManifest>,
    i: int,
    k: int,
    l: int,
)
    requires
        call_ensures(load_custom_manifests, (accepted,), r),
    ensures
        0 <= i < accepted@.len() && accepted@[i].id@ != "llamacpp"@ && accepted@[i].id@
            != "freetoken"@ && accepted@[i].id@ != "ollama"@ && accepted@[i].id@
            != "uncensored-llamacpp"@ ==> has_manifest(r@, accepted@[i]),
        0 <= k < r@.len() ==> r@[k].id@ != "llamacpp"@ && r@[k].id@ != "freetoken"@ && r@[k].id@
            != "ollama"@ && r@[k].id@ != "uncensored-llamacpp"@,
        0 <= k < l < r@.len() ==> !lex_below(r@[l].id@, r@[k].id@),
{
    let v = accepted@;
    let kept = custom_positions(v, v.len() as int);
    lemma_customs(v, v.len() as int);
    let p = choose|p: Seq<usize>|
        {
            &&& #[trigger] in_order(
                p,
                kept.len(),
                id_below(v, kept),
            )
            &&& r@.len() == kept.len()
            &&& forall|i: int|
                0 <= i < r@.len() ==> same_manifest(#[trigger] r@[i], v[kept[p[i] as int]])
        };
    if 0 <= i < v.len() && v[i].id@ != "llamacpp"@ && v[i].id@ != "freetoken"@ && v[i].id@
        != "ollama"@ && v[i].id@ != "uncensored-llamacpp"@ {
        assert(!is_builtin_id(v[i].id@));
        assert(kept.contains(i));
        let x = choose|x: int| 0 <= x < kept.len() && kept[x] == i;
        let y = lemma_permutation_hits(p, kept.len(), x);
        assert(same_manifest(r@[y], v[kept[p[y] as int]]));
    }
    if 0 <= k < r@.len() {
        assert(p[k] < kept.len());
        assert(same_manifest(r@[k], v[kept[p[k] as int]]));
        assert(!is_builtin_id(v[kept[p[k] as int]].id@));
    }
    if 0 <= k < l < r@.len() {
        assert(p[k] < kept.len() && p[l] < kept.len());
        assert(same_manifest(r@[k], v[kept[p[k] as int]]));
        assert(same_manifest(r@[l], v[kept[p[l] as int]]));
        crate::text::lemma_lex(r@[k].id@, r@[l].id@, r@[k].id@);
    }
}

/// The registry has the engines first, and the custom runtimes behind them.
pub proof fn law_registry(customs: &Vec<RuntimeManifest>, r: Vec<RuntimeManifest>, i: int)
    requires
        call_ensures(all_manifests, (customs,), r),
    ensures
        r@.len() == 4 + customs@.len(),
        r@[0].id@ == "llamacpp"@,
        r@[1].id@ == "freetoken"@,
        r@[2].id@ == "ollama"@,
        r@[3].id@ == "uncensored-llamacpp"@,
        texts(r@[1].capabilities@) == seq!["offload"@, "cuda"@],
        r@[3].status == RuntimeStatus::Community,
        0 <= i < customs@.len() ==> same_manifest(r@[4 + i], customs@[i]),
{
    let b = r@.take(4);
    assert(crate::profile::engines().len() == 4);
    assert(crate::runtime_registry::is_builtin_manifest(b[0], Engine::LlamaCpp));
    assert(crate::runtime_registry::is_builtin_manifest(b[1], Engine::FreeToken));
    assert(crate::runtime_registry::is_builtin_manifest(b[2], Engine::Ollama));
    assert(crate::runtime_registry::is_builtin_manifest(b[3], Engine::UncensoredLlamaCpp));
    assert(b[0] == r@[0] && b[1] == r@[1] && b[2] == r@[2] && b[3] == r@[3]);
    if 0 <= i < customs@.len() {
        assert(same_manifest(r@[4 + i], customs@[i]));
    }
}

/// The gauge counts where it reads more than nothing; else the probe does; and
/// where neither does there is no rate.
pub proof fn law_measured_rate(
    gauge: Option<Measure>,
    probe: Option<Measure>,
    error: &Option<String>,
    r: Result<Measure, String>,
)
    requires
        call_ensures(measured_rate, (gauge, probe, error), r),
    ensures
        gauge is Some && 0 < (gauge->0).bits <= 0x7ff0_0000_0000_0000 ==> r is Ok && r->Ok_0
            == gauge->0,
        (gauge is None || (gauge->0).bits == 0) && probe is Some && 0 < (probe->0).bits
            <= 0x7ff0_0000_0000_0000 ==> r is Ok && r->Ok_0 == probe->0,
        (gauge is None || (gauge->0).bits == 0) && (probe is None || (probe->0).bits == 0) ==> r
            is Err,
{
}

/// An edge lets a text through as its predicate says.
pub proof fn law_predicates(p: &EdgePredicate, text: &str, r: bool)
    requires
        call_ensures(EdgePredicate::eval, (p, text), r),
    ensures
        p is Always ==> r,
        p matches EdgePredicate::Contains(x) ==> r == contains(text@, x@),
        p matches EdgePredicate::NotContains(x) ==> r == !contains(text@, x@),
{
}

/// Predicates are written with their name and, behind a colon, their text.
pub proof fn law_predicates_are_read(c: &str, r: Result<EdgePredicate, String>, x: Seq<char>)
    requires
        call_ensures(EdgePredicate::parse, (c,), r),
    ensures
        c@ == "contains:"@ + x ==> (r matches Ok(EdgePredicate::Contains(y)) && y@ == x),
        c@ == "not_contains:"@ + x ==> (r matches Ok(EdgePredicate::NotContains(y)) && y@ == x),
        c@ == "always"@ ==> (r matches Ok(EdgePredicate::Always)),
{
    reveal_strlit("contains:");
    reveal_strlit("not_contains:");
    reveal_strlit("always");
    assert("contains:"@[0] == 'c' && "not_contains:"@[0] == 'n' && "always"@[0] == 'a');
    if c@ == "contains:"@ + x {
        assert(c@.subrange(0, "contains:"@.len() as int) =~= "contains:"@);
        assert(c@.skip("contains:"@.len() as int) =~= x);
    }
    if has_prefix(c@, "contains:"@) {
        assert(c@.subrange(0, "contains:"@.len() as int)[0] == c@[0]);
    }
    if has_prefix(c@, "not_contains:"@) {
        assert(c@.subrange(0, "not_contains:"@.len() as int)[0] == c@[0]);
    }
    if c@ == "not_contains:"@ + x {
        assert(c@[0] == 'n');
        assert(c@.subrange(0, "not_contains:"@.len() as int) =~= "not_contains:"@);
        assert(c@.skip("not_contains:"@.len() as int) =~= x);
    }
}

/// A node is asked of its engine, on this machine, for no more tokens than it
/// and the runner allow, but for sixteen at least.
pub proof fn law_request_of_a_node(
    runner: &StatelessRunner,
    node: &WorkflowNode,
    inputs: &[Message],
    r: Result<GenRequest, String>,
    e: Engine,
    d: EngineDescriptor,
    prompt: String,
)
    requires
        call_ensures(StatelessRunner::request, (runner, node, inputs), r),
        call_ensures(Engine::descriptor, (&e,), d),
        call_ensures(build_prompt, (node, inputs), prompt),
        node.binding.engine is Some,
        (node.binding.engine->0)@ == d.id@,
    ensures
        r is Ok,
        (r->Ok_0).engine == e,
        (r->Ok_0).host@ == "127.0.0.1"@,
        (r->Ok_0).port == d.default_port,
        (r->Ok_0).prompt@ == prompt@,
        (r->Ok_0).max_tokens >= 16,
        (r->Ok_0).max_tokens > 16 ==> (r->Ok_0).max_tokens <= runner.max_tokens
            && (r->Ok_0).max_tokens <= node.exec_overrides.max_tokens,
        runner.max_tokens >= 16 && node.exec_overrides.max_tokens >= 16 ==> (r->Ok_0).max_tokens
            == runner.max_tokens || (r->Ok_0).max_tokens == node.exec_overrides.max_tokens,
{
    crate::profile::law_engine_id_round_trip(e);
}

/// Some line of a prompt has the text.
pub open spec fn has_line(node: WorkflowNode, inputs: Seq<Message>, line: Seq<char>) -> bool {
    prompt_lines(node, inputs).contains(line)
}

proof fn lemma_upstream(inputs: Seq<Message>, n: int)
    requires
        0 <= n <= inputs.len(),
    ensures
        forall|i: int|
            0 <= i < n && (#[trigger] inputs[i]).text@.len() > 0 ==> upstream_lines(
                inputs,
                n,
            ).contains("<upstream>"@ + inputs[i].text@ + "</upstream>"@),
        upstream_lines(inputs, n).len() == spoken(inputs, n),
    decreases n,
{
    if n > 0 {
        lemma_upstream(inputs, n - 1);
        let rest = upstream_lines(inputs, n - 1);
        let all = upstream_lines(inputs, n);
        assert forall|i: int| 0 <= i < n && (#[trigger] inputs[i]).text@.len() > 0 implies
            all.contains("<upstream>"@ + inputs[i].text@ + "</upstream>"@) by {
            let x = "<upstream>"@ + inputs[i].text@ + "</upstream>"@;
            if i == n - 1 {
                assert(all[rest.len() as int] == x);
            } else {
                assert(rest.contains(x));
                let k = choose|k: int| 0 <= k < rest.len() && rest[k] == x;
                assert(all[k] == x);
            }
        }
    }
}

/// How many of the first `n` messages say something.
pub open spec fn spoken(inputs: Seq<Message>, n: int) -> int
    decreases n,
{
    if n <= 0 {
        0
    } else if inputs[n - 1].text@.len() > 0 {
        spoken(inputs, n - 1) + 1
    } else {
        spoken(inputs, n - 1)
    }
}

/// A prompt names the role, and holds every message that says something, each
/// on a line of its own; nothing else is in it.
pub proof fn law_prompt_holds_all_messages(
    node: &WorkflowNode,
    inputs: &[Message],
    r: String,
    i: int,
)
    requires
        call_ensures(build_prompt, (node, inputs), r),
    ensures
        r@ == join(prompt_lines(*node, inputs@), "\n"@),
        0 <= i < inputs@.len() && inputs@[i].text@.len() > 0 ==> has_line(
            *node,
            inputs@,
            "<upstream>"@ + inputs@[i].text@ + "</upstream>"@,
        ),
        node.binding.role_id@.len() > 0 ==> prompt_lines(*node, inputs@)[0]
            == "You are playing the role '"@ + node.binding.role_id@ + "' (binding "@
            + node.binding.model_ref@ + "). Perform your assigned step."@,
        prompt_lines(*node, inputs@).len() == (if node.binding.role_id@.len() > 0 {
            1int
        } else {
            0
        }) + if inputs@.len() > 0 {
            1 + spoken(inputs@, inputs@.len() as int)
        } else {
            0
        },
{
    lemma_upstream(inputs@, inputs@.len() as int);
    let up = upstream_lines(inputs@, inputs@.len() as int);
    let all = prompt_lines(*node, inputs@);
    if inputs@.len() > 0 {
        let head: int = if node.binding.role_id@.len() > 0 {
            2
        } else {
            1
        };
        assert(all.len() == head + up.len());
        if 0 <= i < inputs@.len() && inputs@[i].text@.len() > 0 {
            let x = "<upstream>"@ + inputs@[i].text@ + "</upstream>"@;
            assert(up.contains(x));
            let k = choose|k: int| 0 <= k < up.len() && up[k] == x;
            assert(all[head + k] == x);
        }
    }
}

proof fn lemma_task(w: Workload, label: Seq<char>, k: int, t: int)
    requires
        0 <= k <= t < w.tasks@.len(),
        w.tasks@[t].label@ == label,
        forall|j: int| 0 <= j < t ==> (#[trigger] w.tasks@[j]).label@ != label,
    ensures
        task_from(w@.tasks, label, k) == Some(w.tasks@[t]@),
    decreases t - k,
{
    assert(w@.tasks[k] == w.tasks@[k]@);
    if k < t {
        assert(w.tasks@[k].label@ != label);
        lemma_task(w, label, k + 1, t);
    }
}

proof fn lemma_no_task(w: Workload, label: Seq<char>, k: int)
    requires
        0 <= k,
        forall|j: int| 0 <= j < w.tasks@.len() ==> (#[trigger] w.tasks@[j]).label@ != label,
    ensures
        task_from(w@.tasks, label, k) is None,
    decreases w.tasks@.len() - k,
{
    if k < w.tasks@.len() {
        assert(w@.tasks[k] == w.tasks@[k]@);
        assert(w.tasks@[k].label@ != label);
        lemma_no_task(w, label, k + 1);
    }
}

/// The workload has no task of a label.
pub open spec fn lacks(w: Workload, label: Seq<char>) -> bool {
    forall|j: int| 0 <= j < w.tasks@.len() ==> (#[trigger] w.tasks@[j]).label@ != label
}

proof fn lemma_labelled(ws: Seq<Workload>, label: Seq<char>, k: int, w: int, t: int)
    requires
        0 <= k <= w < ws.len(),
        forall|j: int| 0 <= j < w ==> lacks(#[trigger] ws[j], label),
        0 <= t < ws[w].tasks@.len(),
        ws[w].tasks@[t].label@ == label,
        forall|j: int| 0 <= j < t ==> (#[trigger] ws[w].tasks@[j]).label@ != label,
    ensures
        labelled_from(workload_views(ws), label, k) == Some(ws[w].tasks@[t]@),
    decreases w - k,
{
    assert(workload_views(ws)[k] == ws[k]@);
    if k < w {
        assert(lacks(ws[k], label));
        lemma_no_task(ws[k], label, 0);
        lemma_labelled(ws, label, k + 1, w, t);
    } else {
        lemma_task(ws[w], label, 0, t);
    }
}

proof fn lemma_unlabelled(ws: Seq<Workload>, label: Seq<char>, k: int)
    requires
        0 <= k,
        forall|j: int| 0 <= j < ws.len() ==> lacks(#[trigger] ws[j], label),
    ensures
        labelled_from(workload_views(ws), label, k) is None,
    decreases ws.len() - k,
{
    if k < ws.len() {
        assert(workload_views(ws)[k] == ws[k]@);
        assert(lacks(ws[k], label));
        lemma_no_task(ws[k], label, 0);
        lemma_unlabelled(ws, label, k + 1);
    }
}

/// A task is judged as the first of its label says; one that no workload has
/// by its words.
pub proof fn law_how_a_task_is_judged(
    ws: &Vec<Workload>,
    label: &str,
    r: (String, String),
    w: int,
    t: int,
)
    requires
        call_ensures(task_evaluator, (ws, label), r),
    ensures
        0 <= w < ws@.len() && (forall|j: int| 0 <= j < w ==> lacks(#[trigger] ws@[j], label@)) && 0
            <= t < ws@[w].tasks@.len() && ws@[w].tasks@[t].label@ == label@ && (forall|j: int|
            0 <= j < t ==> (#[trigger] ws@[w].tasks@[j]).label@ != label@) ==> r.0@
            == ws@[w].tasks@[t].evaluator@ && r.1@ == ws@[w].tasks@[t].evaluator_config@,
        (forall|j: int| 0 <= j < ws@.len() ==> lacks(#[trigger] ws@[j], label@)) ==> r.0@
            == "lexical-placeholder"@ && r.1@ == ""@,
{
    if 0 <= w < ws@.len() && (forall|j: int| 0 <= j < w ==> lacks(#[trigger] ws@[j], label@)) && 0
        <= t < ws@[w].tasks@.len() && ws@[w].tasks@[t].label@ == label@ && (forall|j: int|
        0 <= j < t ==> (#[trigger] ws@[w].tasks@[j]).label@ != label@) {
        lemma_labelled(ws@, label@, 0, w, t);
    }
    if forall|j: int| 0 <= j < ws@.len() ==> lacks(#[trigger] ws@[j], label@) {
        lemma_unlabelled(ws@, label@, 0);
    }
}

/// The graphics memory is the number on the first line of the report, else
/// what is fallen back to.
pub proof fn law_graphics_memory(report: Option<&str>, fallback: u64, r: u64, n: nat)
    requires
        call_ensures(available_vram_mb, (report, fallback), r),
    ensures
        report is None ==> r == fallback,
        report is Some && lines((report->0)@).len() > 0 && parse_number(
            trim(lines((report->0)@)[0]),
            0xffff_ffff_ffff_ffff,
        ) == Some(n) && n <= u64::MAX ==> r == n,
        report is Some && lines((report->0)@).len() == 0 ==> r == fallback,
        report is Some && lines((report->0)@).len() > 0 && parse_number(
            trim(lines((report->0)@)[0]),
            0xffff_ffff_ffff_ffff,
        ) is None ==> r == fallback,
{
}

/// Why a configuration was chosen names the runtime, the context, the cache
/// and the memory, and says where the weights spill.
pub proof fn law_explanation(
    id: &str,
    ctx: u64,
    kv: &str,
    need: u64,
    have: u64,
    offload: bool,
    r: String,
)
    requires
        call_ensures(explain_fit, (id, ctx, kv, need, have, offload), r),
    ensures
        offload ==> r@ == id@ + ": ctx "@ + decimal(ctx as nat) + " with "@ + kv@
            + " KV; weights spill to RAM, VRAM holds KV+buffers (~"@ + decimal(need as nat)
            + " MiB of "@ + decimal(have as nat) + " MiB)."@,
        !offload ==> r@ == id@ + ": ctx "@ + decimal(ctx as nat) + " with "@ + kv@
            + " KV; estimated VRAM ~"@ + decimal(need as nat) + " MiB of "@ + decimal(have as nat)
            + " MiB."@,
{
}

/// A gate shows what its inputs say, parted by rules; without inputs it asks.
pub proof fn law_text_at_a_gate(inputs: &Vec<Message>, r: String)
    requires
        call_ensures(text_at_gate, (inputs,), r),
    ensures
        inputs@.len() == 0 ==> r@ == "human approval required — no inputs yet"@,
        inputs@.len() == 1 && inputs@[0].text@.len() > 0 ==> r@ == inputs@[0].text@,
        inputs@.len() == 2 ==> r@ == inputs@[0].text@ + "\n---\n"@ + inputs@[1].text@,
{
    let v = Seq::new(inputs@.len(), |i: int| inputs@[i].text@);
    reveal_strlit("\n---\n");
    if inputs@.len() == 2 {
        let one = v.drop_last();
        assert(one.len() == 1 && one[0] == inputs@[0].text@);
        assert(join(one, "\n---\n"@) == one[0]);
        assert(join(v, "\n---\n"@) == join(one, "\n---\n"@) + "\n---\n"@ + v.last());
    }
}

/// The record of a node that ran has what its result says; a node that was
/// skipped or has no engine has none.
pub proof fn law_record_of_a_node(
    wf: &Workflow,
    nr: &NodeResult,
    at: i64,
    r: Option<MatrixRow>,
    i: int,
)
    requires
        call_ensures(node_to_matrix_row, (wf, nr, at), r),
        0 <= i < wf.nodes@.len(),
        wf.nodes@[i].id@ == nr.node_id@,
        forall|j: int| 0 <= j < i ==> (#[trigger] wf.nodes@[j]).id@ != nr.node_id@,
    ensures
        r is Some <==> !nr.skipped && wf.nodes@[i].binding.engine is Some,
        r is Some ==> {
            &&& (r->0).engine@ == (wf.nodes@[i].binding.engine->0)@
            &&& (r->0).model@ == wf.nodes@[i].binding.model_ref@
            &&& (r->0).task@ == wf.nodes@[i].role_id@
            &&& (r->0).verdict@ == if nr.ok {
                "ok"@
            } else {
                "error"@
            }
            &&& (r->0).tok_s == nr.tps
            &&& (r->0).wall_ms == nr.wall_ms
            &&& (r->0).ttft_ms == nr.ttft_ms
            &&& nr.gen_tokens > 0 ==> (r->0).gen_tokens == Some(nr.gen_tokens)
            &&& nr.gen_tokens == 0 ==> (r->0).gen_tokens is None
            &&& nr.ok ==> (r->0).output@ == nr.text@
            &&& (r->0).at == at
            &&& opt_text((r->0).role_id) == Some(wf.nodes@[i].role_id@)
            &&& opt_text((r->0).workflow_id) == Some(wf.id@)
        },
{
    lemma_node(*wf, nr.node_id@, 0, i);
    if r is Some {
        let v = (r->0)@;
        assert(v.engine == (r->0).engine@ && v.tok_s == (r->0).tok_s);
    }
}

proof fn lemma_node(wf: Workflow, id: Seq<char>, k: int, i: int)
    requires
        0 <= k <= i < wf.nodes@.len(),
        wf.nodes@[i].id@ == id,
        forall|j: int| 0 <= j < i ==> (#[trigger] wf.nodes@[j]).id@ != id,
    ensures
        node_index_from(wf, id, k) == Some(i),
    decreases i - k,
{
    if k < i {
        assert(wf.nodes@[k].id@ != id);
        lemma_node(wf, id, k + 1, i);
    }
}

} // verus!
