//! The runners of workflow nodes: what they ask, what they make of the answer,
//! and the benchmark row that a node's run leaves behind.
use vstd::prelude::*;
use vstd::string::StringExecFns;

use crate::engines::inference::{or_empty, GenSample};
use crate::engines::workflow::{node_index, NodeOutcome, NodeResult, NodeRunner};
use crate::measure::Measure;
use crate::profile::{engine_with_id, engine_port, Engine};
use crate::store::bench::{MatrixRow, RowView};
use crate::text::{join, join_texts, opt_text, owned, same, split, str_split, str_trim, texts, trim};
use crate::workflow::{Message, Workflow, WorkflowNode};

verus! {

/// The line that gives a node its role.
pub open spec fn role_line(n: WorkflowNode) -> Seq<char> {
    "You are playing the role '"@ + n.binding.role_id@ + "' (binding "@ + n.binding.model_ref@
        + "). Perform your assigned step."@
}

/// The lines that quote the first `n` upstream messages; an empty one has none.
pub open spec fn upstream_lines(inputs: Seq<Message>, n: int) -> Seq<Seq<char>>
    decreases n,
{
    if n <= 0 {
        Seq::empty()
    } else if inputs[n - 1].text@.len() > 0 {
        upstream_lines(inputs, n - 1).push(
            "<upstream>"@ + inputs[n - 1].text@ + "</upstream>"@,
        )
    } else {
        upstream_lines(inputs, n - 1)
    }
}

/// The lines of a node's prompt: its role, where it has one, then what reached
/// it, youngest last.
pub open spec fn prompt_lines(n: WorkflowNode, inputs: Seq<Message>) -> Seq<Seq<char>> {
    let role = if n.binding.role_id@.len() > 0 {
        seq![role_line(n)]
    } else {
        Seq::empty()
    };
    if inputs.len() > 0 {
        role.push("Upstream context:"@) + upstream_lines(inputs, inputs.len() as int)
    } else {
        role
    }
}

/// The prompt of a node.
pub fn build_prompt(node: &WorkflowNode, inputs: &[Message]) -> (r: String)
    ensures
        r@ == join(prompt_lines(*node, inputs@), "\n"@),
{
    let mut parts: Vec<String> = Vec::new();
    assert(texts(parts@) =~= Seq::<Seq<char>>::empty());
    if !node.binding.role_id.as_str().is_empty() {
        let mut l = owned("You are playing the role '");
        l.append(node.binding.role_id.as_str());
        l.append("' (binding ");
        l.append(node.binding.model_ref.as_str());
        l.append("). Perform your assigned step.");
        parts.push(l);
        assert(texts(parts@) =~= seq![role_line(*node)]);
    }
    let n = inputs.len();
    if n > 0 {
        parts.push(owned("Upstream context:"));
        let ghost head = texts(parts@);
        let mut i: usize = 0;
        assert(head + upstream_lines(inputs@, 0) =~= head);
        while i < n
            invariant
                n == inputs@.len(),
                i <= n,
                texts(parts@) == head + upstream_lines(inputs@, i as int),
            decreases n - i,
        {
            let ghost before = texts(parts@);
            if !inputs[i].text.as_str().is_empty() {
                let mut l = owned("<upstream>");
                l.append(inputs[i].text.as_str());
                l.append("</upstream>");
                parts.push(l);
                assert(texts(parts@) =~= before.push(l@));
                assert(before.push(l@) =~= head + upstream_lines(inputs@, i as int).push(l@));
            }
            i = i + 1;
        }
        assert(texts(parts@) =~= prompt_lines(*node, inputs@));
    }
    join_texts(&parts, "\n")
}

/// One generation against the resident slot of the node's engine.
#[derive(Debug, Clone, Copy, PartialEq, Eq, Structural)]
pub struct StatelessRunner {
    pub max_tokens: u32,
}

/// What a stateless runner asks of an engine.
#[derive(Debug, Clone, PartialEq)]
pub struct GenRequest {
    pub engine: Engine,
    pub host: String,
    pub port: u16,
    pub model_id: String,
    pub prompt: String,
    pub max_tokens: u32,
}

/// The name by which an engine knows a model: what stands before the first `@`
/// and behind the last `/` of its reference; the reference where that is empty.
pub open spec fn model_alias(model_ref: Seq<char>) -> Seq<char> {
    let head = trim(split(model_ref, '@')[0]);
    let alias = trim(split(head, '/').last());
    if alias.len() == 0 {
        model_ref
    } else {
        alias
    }
}

proof fn lemma_split_some(s: Seq<char>, c: char)
    ensures
        split(s, c).len() > 0,
{
}

fn alias_of(model_ref: &str) -> (r: String)
    ensures
        r@ == model_alias(model_ref@),
{
    proof {
        lemma_split_some(model_ref@, '@');
    }
    let parts = str_split(model_ref, '@');
    assert(texts(parts@)[0] == parts@[0]@);
    let head = str_trim(parts[0].as_str());
    proof {
        lemma_split_some(head@, '/');
    }
    let steps = str_split(head.as_str(), '/');
    assert(texts(steps@)[steps@.len() - 1] == steps@[steps@.len() - 1]@);
    let alias = str_trim(steps[steps.len() - 1].as_str());
    if alias.as_str().is_empty() {
        owned(model_ref)
    } else {
        alias
    }
}

/// The bound on the tokens of a generation: the smaller of two, and at least
/// sixteen.
pub open spec fn token_bound(node_tokens: u32, runner_tokens: u32) -> u32 {
    let least = if node_tokens < runner_tokens {
        node_tokens
    } else {
        runner_tokens
    };
    if least < 16 {
        16
    } else {
        least
    }
}

/// The engine id of a node; empty where it binds none.
pub open spec fn engine_id_of(n: WorkflowNode) -> Seq<char> {
    or_empty(opt_text(n.binding.engine))
}

impl StatelessRunner {
    pub fn name(&self) -> (r: &'static str)
        ensures
            r@ == "stateless"@,
    {
        "stateless"
    }

    /// What is asked for a node; a node whose engine is unknown cannot run.
    pub fn request(&self, node: &WorkflowNode, inputs: &[Message]) -> (r: Result<
        GenRequest,
        String,
    >)
        ensures
            match engine_with_id(engine_id_of(*node)) {
                Some(e) => r is Ok && r->Ok_0.engine == e && r->Ok_0.host@ == "127.0.0.1"@
                    && r->Ok_0.port == engine_port(e) && r->Ok_0.model_id@ == model_alias(
                    node.binding.model_ref@,
                ) && r->Ok_0.prompt@ == join(prompt_lines(*node, inputs@), "\n"@)
                    && r->Ok_0.max_tokens == token_bound(
                    node.exec_overrides.max_tokens,
                    self.max_tokens,
                ),
                None => r is Err && r->Err_0@ == "unsupported engine '"@ + engine_id_of(*node)
                    + "'"@,
            },
    {
        let id = match &node.binding.engine {
            Some(e) => owned(e.as_str()),
            None => owned(""),
        };
        match Engine::parse(id.as_str()) {
            Some(engine) => {
                let mut max_tokens: u32 = if node.exec_overrides.max_tokens < self.max_tokens {
                    node.exec_overrides.max_tokens
                } else {
                    self.max_tokens
                };
                if max_tokens < 16 {
                    max_tokens = 16;
                }
                Ok(
                    GenRequest {
                        engine,
                        host: owned("127.0.0.1"),
                        port: engine.default_port(),
                        model_id: alias_of(node.binding.model_ref.as_str()),
                        prompt: build_prompt(node, inputs),
                        max_tokens,
                    },
                )
            },
            None => {
                let mut m = owned("unsupported engine '");
                m.append(id.as_str());
                m.append("'");
                Err(m)
            },
        }
    }

    /// What a node makes of a sample.
    pub fn outcome(s: GenSample) -> (r: Result<NodeOutcome, String>)
        ensures
            s.ok ==> r is Ok && r->Ok_0.text@ == s.text@ && r->Ok_0.tps == s.tok_s
                && r->Ok_0.ttft_ms == s.ttft_ms && r->Ok_0.gen_tokens == (match s.gen_tokens {
                Some(n) => n,
                None => 0,
            }),
            !s.ok ==> r is Err && r->Err_0@ == (match opt_text(s.error) {
                Some(e) => e,
                None => "generation failed"@,
            }),
    {
        if s.ok {
            Ok(
                NodeOutcome {
                    text: s.text,
                    tps: s.tok_s,
                    ttft_ms: s.ttft_ms,
                    gen_tokens: match s.gen_tokens {
                        Some(n) => n,
                        None => 0,
                    },
                },
            )
        } else {
            match s.error {
                Some(e) => Err(e),
                None => Err(owned("generation failed")),
            }
        }
    }
}

/// Answers without an engine: it shows what reached the node.
#[derive(Debug, Clone, Copy, PartialEq, Eq, Structural)]
pub struct EchoRunner;

/// The texts of a list of messages.
pub open spec fn input_texts(inputs: Seq<Message>) -> Seq<Seq<char>> {
    Seq::new(inputs.len(), |i: int| inputs[i].text@)
}

/// What the echo answers for a node.
pub open spec fn echo_text(n: WorkflowNode, inputs: Seq<Message>) -> Seq<char> {
    let up = join(input_texts(inputs), " | "@);
    "[echo "@ + n.id@ + ":"@ + n.role_id@ + "] saw upstream: "@ + (if up.len() == 0 {
        "no upstream"@
    } else {
        up
    }) + " — gen 42 tokens"@
}

/// One hundred, as a double.
pub const HUNDRED: u64 = 0x4059_0000_0000_0000;

impl NodeRunner for EchoRunner {
    fn name(&self) -> (r: &'static str)
        ensures
            r@ == "echo"@,
    {
        "echo"
    }

    fn run(&self, node: &WorkflowNode, inputs: &[Message]) -> (r: Result<NodeOutcome, String>)
        ensures
            r is Ok,
            r->Ok_0.text@ == echo_text(*node, inputs@),
            r->Ok_0.tps == Some(Measure { bits: HUNDRED }),
            r->Ok_0.ttft_ms == Some(5u64),
            r->Ok_0.gen_tokens == 42,
    {
        let mut parts: Vec<String> = Vec::new();
        let n = inputs.len();
        let mut i: usize = 0;
        while i < n
            invariant
                n == inputs@.len(),
                i <= n,
                parts@.len() == i,
                forall|k: int| 0 <= k < i ==> (#[trigger] parts@[k])@ == inputs@[k].text@,
            decreases n - i,
        {
            parts.push(owned(inputs[i].text.as_str()));
            i = i + 1;
        }
        assert(texts(parts@) =~= input_texts(inputs@));
        let up = join_texts(&parts, " | ");
        let mut t = owned("[echo ");
        t.append(node.id.as_str());
        t.append(":");
        t.append(node.role_id.as_str());
        t.append("] saw upstream: ");
        if up.as_str().is_empty() {
            t.append("no upstream");
        } else {
            t.append(up.as_str());
        }
        t.append(" — gen 42 tokens");
        Ok(
            NodeOutcome {
                text: t,
                tps: Some(Measure { bits: HUNDRED }),
                ttft_ms: Some(5),
                gen_tokens: 42,
            },
        )
    }
}

/// An agent session in a directory, run to its end.
#[derive(Debug, Clone, PartialEq)]
pub struct AgenticRunner {
    pub dir: String,
    pub model: Option<String>,
}

/// The arguments of an agent session.
pub open spec fn session_args(
    dir: Seq<char>,
    model: Option<Seq<char>>,
    prompt: Seq<char>,
) -> Seq<Seq<char>> {
    let head = seq!["run"@, "--dir"@, dir];
    match model {
        Some(m) => if m.len() > 0 {
            head + seq!["-m"@, m, prompt]
        } else {
            head.push(prompt)
        },
        None => head.push(prompt),
    }
}

impl AgenticRunner {
    pub fn name(&self) -> (r: &'static str)
        ensures
            r@ == "agentic"@,
    {
        "agentic"
    }

    /// The arguments of the session for a node.
    pub fn args(&self, node: &WorkflowNode, inputs: &[Message]) -> (r: Vec<String>)
        ensures
            texts(r@) == session_args(
                self.dir@,
                opt_text(self.model),
                join(prompt_lines(*node, inputs@), "\n"@),
            ),
    {
        let mut r: Vec<String> = Vec::new();
        r.push(owned("run"));
        r.push(owned("--dir"));
        r.push(owned(self.dir.as_str()));
        match &self.model {
            Some(m) => {
                if !m.as_str().is_empty() {
                    r.push(owned("-m"));
                    r.push(owned(m.as_str()));
                }
            },
            None => {},
        }
        r.push(build_prompt(node, inputs));
        assert(texts(r@) =~= session_args(
            self.dir@,
            opt_text(self.model),
            join(prompt_lines(*node, inputs@), "\n"@),
        ));
        r
    }

    /// What a node makes of a session that ended: its output where it
    /// succeeded, else what it complained of.
    pub fn outcome(success: bool, stdout: &str, stderr: &str) -> (r: Result<NodeOutcome, String>)
        ensures
            success ==> r is Ok && r->Ok_0.text@ == trim(stdout@) && r->Ok_0.tps is None
                && r->Ok_0.ttft_ms is None && r->Ok_0.gen_tokens == 0,
            !success ==> r is Err && r->Err_0@ == trim(stderr@),
    {
        if success {
            Ok(NodeOutcome { text: str_trim(stdout), tps: None, ttft_ms: None, gen_tokens: 0 })
        } else {
            Err(str_trim(stderr))
        }
    }
}

/// The benchmark row of a node's run.
pub open spec fn node_row(wf: Workflow, n: WorkflowNode, nr: NodeResult, at: i64) -> RowView {
    RowView {
        engine: engine_id_of(n),
        model: n.binding.model_ref@,
        ctx: 0,
        task: n.role_id@,
        run: 1,
        verdict: if nr.ok {
            "ok"@
        } else {
            "error"@
        },
        summary: "workflow node "@ + n.id@,
        gen_tokens: if nr.gen_tokens > 0 {
            Some(nr.gen_tokens)
        } else {
            None
        },
        prompt_tokens: None,
        tok_s: nr.tps,
        tok_s_kind: "wall"@,
        wall_ms: nr.wall_ms,
        output: if nr.ok {
            nr.text@
        } else {
            ""@
        },
        at,
        workload_id: None,
        hardware_profile_id: None,
        engine_version: None,
        prompt_tps: None,
        ttft_ms: nr.ttft_ms,
        peak_vram_mb: None,
        model_rev: None,
        sampling_json: None,
        role_id: Some(n.role_id@),
        workflow_id: Some(wf.id@),
    }
}

/// The benchmark row that a result leaves behind: none for a skipped node, for
/// a node that the workflow does not have, and for one that binds no engine,
/// for then there is nothing to benchmark.
pub open spec fn row_of_result(wf: Workflow, nr: NodeResult, at: i64) -> Option<RowView> {
    match node_index(wf, nr.node_id@) {
        Some(i) => if !nr.skipped && wf.nodes@[i].binding.engine is Some {
            Some(node_row(wf, wf.nodes@[i], nr, at))
        } else {
            None
        },
        None => None,
    }
}

/// The benchmark row that a result leaves behind.
pub fn node_to_matrix_row(wf: &Workflow, nr: &NodeResult, at: i64) -> (r: Option<MatrixRow>)
    ensures
        match row_of_result(*wf, *nr, at) {
            Some(v) => r is Some && r->0@ == v,
            None => r is None,
        },
{
    if nr.skipped {
        return None;
    }
    let mut i: usize = 0;
    while i < wf.nodes.len()
        invariant
            i <= wf.nodes@.len(),
            !nr.skipped,
            node_index(*wf, nr.node_id@) == crate::engines::workflow::node_index_from(
                *wf,
                nr.node_id@,
                i as int,
            ),
        decreases wf.nodes@.len() - i,
    {
        let node = &wf.nodes[i];
        if same(node.id.as_str(), nr.node_id.as_str()) {
            let engine = match &node.binding.engine {
                Some(e) => owned(e.as_str()),
                None => {
                    return None;
                },
            };
            let mut summary = owned("workflow node ");
            summary.append(node.id.as_str());
            let row = MatrixRow {
                engine,
                model: owned(node.binding.model_ref.as_str()),
                ctx: 0,
                task: owned(node.role_id.as_str()),
                run: 1,
                verdict: if nr.ok {
                    owned("ok")
                } else {
                    owned("error")
                },
                summary,
                gen_tokens: if nr.gen_tokens > 0 {
                    Some(nr.gen_tokens)
                } else {
                    None
                },
                prompt_tokens: None,
                tok_s: nr.tps,
                tok_s_kind: owned("wall"),
                wall_ms: nr.wall_ms,
                output: if nr.ok {
                    owned(nr.text.as_str())
                } else {
                    owned("")
                },
                at,
                workload_id: None,
                hardware_profile_id: None,
                engine_version: None,
                prompt_tps: None,
                ttft_ms: nr.ttft_ms,
                peak_vram_mb: None,
                model_rev: None,
                sampling_json: None,
                role_id: Some(owned(node.role_id.as_str())),
                workflow_id: Some(owned(wf.id.as_str())),
            };
            return Some(row);
        }
        i = i + 1;
    }
    None
}

} // verus!
