//! The workflow driver: runs the schedule of a workflow against a runner.
//!
//! A wave starts after the one before it has completed, so a node's inputs are
//! the messages of its predecessors. A conditional edge routes a message only
//! where its predicate holds of the text; a node into which every edge is
//! conditional and none routed is skipped. A single loop edge makes the body
//! run again while its predicate holds, within the limits of the settings.
use std::sync::atomic::AtomicBool;
use vstd::prelude::*;
use vstd::string::StringExecFns;

use crate::engines::turns::{NodeCall, Turns};
use crate::measure::Measure;
use crate::text::{join, join_texts, opt_text, owned, same, str_trim, texts, trim};
use crate::workflow::{
    condition_holds, condition_of, cyclic, forward, is_schedule, only_loop_edge, plan, wave_texts,
    EdgePredicate, Message, MessageKind, NodeKind, Workflow, WorkflowEdge, WorkflowNode,
    WorkflowRunStatus, CYCLE_ERROR,
};

verus! {

/// What a runner produced for one node. Where it cannot measure a quantity,
/// the quantity is absent or zero.
#[derive(Debug, Clone)]
pub struct NodeOutcome {
    pub text: String,
    pub tps: Option<Measure>,
    pub ttft_ms: Option<u64>,
    pub gen_tokens: u64,
}

/// One node's part of a run.
#[derive(Debug, Clone)]
pub struct NodeResult {
    pub node_id: String,
    pub ok: bool,
    pub text: String,
    pub error: String,
    pub wall_ms: u64,
    pub order_idx: u64,
    pub tps: Option<Measure>,
    pub ttft_ms: Option<u64>,
    pub gen_tokens: u64,
    /// No edge into the node routed a message, so it did not run.
    pub skipped: bool,
}

/// The result of one run of a workflow.
#[derive(Debug, Clone)]
pub struct ExecReport {
    pub run_id: String,
    pub status: WorkflowRunStatus,
    pub node_results: Vec<NodeResult>,
    pub total_wall_ms: u64,
    pub tokens_used: u64,
    /// How often the body ran.
    pub iterations: u32,
}

/// Runs a single node, given the messages that reached it.
pub trait NodeRunner {
    fn name(&self) -> &'static str;

    fn run(&self, node: &WorkflowNode, inputs: &[Message]) -> Result<NodeOutcome, String>;
}

/// The values of a node result.
pub struct ResultView {
    pub node_id: Seq<char>,
    pub ok: bool,
    pub text: Seq<char>,
    pub error: Seq<char>,
    pub wall_ms: u64,
    pub order_idx: u64,
    pub tps: Option<Measure>,
    pub ttft_ms: Option<u64>,
    pub gen_tokens: u64,
    pub skipped: bool,
}

impl View for NodeResult {
    type V = ResultView;

    open spec fn view(&self) -> ResultView {
        ResultView {
            node_id: self.node_id@,
            ok: self.ok,
            text: self.text@,
            error: self.error@,
            wall_ms: self.wall_ms,
            order_idx: self.order_idx,
            tps: self.tps,
            ttft_ms: self.ttft_ms,
            gen_tokens: self.gen_tokens,
            skipped: self.skipped,
        }
    }
}

/// The views of a list of results.
pub open spec fn result_views(v: Seq<NodeResult>) -> Seq<ResultView> {
    Seq::new(v.len(), |i: int| v[i]@)
}

/// The values of a message that carries text.
pub struct MessageView {
    pub id: Seq<char>,
    pub node_run_id: Seq<char>,
    pub text: Seq<char>,
}

/// The message is a plain text message with these values.
pub open spec fn is_text_message(m: Message, v: MessageView) -> bool {
    &&& m.id@ == v.id
    &&& m.node_run_id@ == v.node_run_id
    &&& m.text@ == v.text
    &&& m.kind == MessageKind::Text
    &&& m.structured is None
    &&& m.ref_path is None
    &&& m.meta@.len() == 0
}

/// The messages are plain text messages with these values.
pub open spec fn are_text_messages(ms: Seq<Message>, vs: Seq<MessageView>) -> bool {
    ms.len() == vs.len() && forall|i: int|
        0 <= i < ms.len() ==> is_text_message(#[trigger] ms[i], vs[i])
}

/// The message that a node's text becomes.
pub open spec fn node_message(run_id: Seq<char>, id: Seq<char>, text: Seq<char>) -> MessageView {
    MessageView { id: "m-"@ + id, node_run_id: run_id + "-"@ + id, text }
}

/// The message that the kickoff task becomes.
pub open spec fn task_message(run_id: Seq<char>, task: Seq<char>) -> MessageView {
    MessageView { id: "m-input-task"@, node_run_id: run_id + "-input"@, text: task }
}

/// What a run keeps from node to node.
pub struct Progress {
    pub any_error: bool,
    /// The text that each node produced last.
    pub outputs: Map<Seq<char>, Seq<char>>,
    pub results: Seq<ResultView>,
    pub tokens: u64,
    /// The text that the loop edge delivers to its target.
    pub carry: Option<Seq<char>>,
    /// Whether a node ran in the current pass.
    pub ran: bool,
    /// What the runner was asked, in order.
    pub asked: Seq<Asked>,
}

/// What a runner was given, and what it answered.
pub struct Asked {
    pub node: WorkflowNode,
    pub inputs: Seq<MessageView>,
    pub outcome: Result<OutcomeView, Seq<char>>,
}

/// The call is what was asked.
pub open spec fn is_asked(c: NodeCall, a: Asked) -> bool {
    &&& c.node == a.node
    &&& are_text_messages(c.inputs, a.inputs)
    &&& outcome_view(c.outcome) == a.outcome
}

/// The calls are what was asked, one for one.
pub open spec fn are_asked(calls: Seq<NodeCall>, asked: Seq<Asked>) -> bool {
    calls.len() == asked.len() && forall|i: int|
        0 <= i < calls.len() ==> is_asked(#[trigger] calls[i], asked[i])
}

/// The calls grew by what was asked meanwhile.
pub open spec fn in_step(
    calls: Seq<NodeCall>,
    asked: Seq<Asked>,
    more_calls: Seq<NodeCall>,
    more_asked: Seq<Asked>,
) -> bool {
    &&& calls.len() <= more_calls.len()
    &&& asked.len() <= more_asked.len()
    &&& more_calls.take(calls.len() as int) == calls
    &&& more_asked.take(asked.len() as int) == asked
    &&& are_asked(more_calls.skip(calls.len() as int), more_asked.skip(asked.len() as int))
}

proof fn lemma_in_step(
    c0: Seq<NodeCall>,
    a0: Seq<Asked>,
    c1: Seq<NodeCall>,
    a1: Seq<Asked>,
    c2: Seq<NodeCall>,
    a2: Seq<Asked>,
)
    requires
        in_step(c0, a0, c1, a1),
        in_step(c1, a1, c2, a2),
    ensures
        in_step(c0, a0, c2, a2),
{
    let n = c0.len() as int;
    let m = a0.len() as int;
    assert(c2.take(n) =~= c1.take(n)) by {
        assert(c2.take(c1.len() as int).take(n) =~= c2.take(n));
    }
    assert(a2.take(m) =~= a1.take(m)) by {
        assert(a2.take(a1.len() as int).take(m) =~= a2.take(m));
    }
    let c = c2.skip(n);
    let a = a2.skip(m);
    let k = c1.len() - n;
    assert forall|i: int| 0 <= i < c.len() implies is_asked(#[trigger] c[i], a[i]) by {
        if i < k {
            assert(c1.skip(n)[i] == c2.take(c1.len() as int)[n + i]);
            assert(a1.skip(m)[i] == a2.take(a1.len() as int)[m + i]);
            assert(is_asked(c1.skip(n)[i], a1.skip(m)[i]));
        } else {
            assert(c2.skip(c1.len() as int)[i - k] == c[i]);
            assert(a2.skip(a1.len() as int)[i - k] == a[i]);
            assert(is_asked(c2.skip(c1.len() as int)[i - k], a2.skip(a1.len() as int)[i - k]));
        }
    }
}

proof fn lemma_in_place(calls: Seq<NodeCall>, asked: Seq<Asked>)
    ensures
        in_step(calls, asked, calls, asked),
{
    assert(calls.take(calls.len() as int) =~= calls);
    assert(asked.take(asked.len() as int) =~= asked);
}

/// What a runner answered for a node, and how long it took.
pub struct NodeEvent {
    pub outcome: Result<OutcomeView, Seq<char>>,
    pub wall_ms: u64,
}

/// The values of an outcome.
pub struct OutcomeView {
    pub text: Seq<char>,
    pub tps: Option<Measure>,
    pub ttft_ms: Option<u64>,
    pub gen_tokens: u64,
}

/// The length in bytes that the text counts with.
pub open spec fn text_bytes(text: Seq<char>) -> usize {
    vstd::utf8::encode_utf8(text).len() as usize
}

/// Saturating addition.
pub open spec fn plus(a: u64, b: u64) -> u64 {
    if a + b > u64::MAX {
        u64::MAX
    } else {
        (a + b) as u64
    }
}

/// What a run counts for a text: the tokens that the runner reported, or a
/// quarter of its bytes where it reported none.
pub open spec fn token_cost(text: Seq<char>, gen_tokens: u64) -> u64 {
    if gen_tokens > 0 {
        gen_tokens
    } else {
        (text_bytes(text) / 4) as u64
    }
}

/// The position of the first node with an id.
pub open spec fn node_index_from(wf: Workflow, id: Seq<char>, i: int) -> Option<int>
    decreases wf.nodes@.len() - i,
{
    if i < 0 || i >= wf.nodes@.len() {
        None
    } else if wf.nodes@[i].id@ == id {
        Some(i)
    } else {
        node_index_from(wf, id, i + 1)
    }
}

pub open spec fn node_index(wf: Workflow, id: Seq<char>) -> Option<int> {
    node_index_from(wf, id, 0)
}

/// Edge `i` is a forward edge into `id`.
pub open spec fn leads_to(wf: Workflow, i: int, id: Seq<char>) -> bool {
    forward(wf, i) && wf.edges@[i].to@ == id
}

/// Edge `i` hands over the text that its source produced: the source has
/// produced one, and the condition, where there is one, can be read and holds.
pub open spec fn routes(wf: Workflow, outputs: Map<Seq<char>, Seq<char>>, i: int) -> bool {
    let e = wf.edges@[i];
    outputs.dom().contains(e.from@) && match e.condition {
        None => true,
        Some(c) => match condition_of(c@) {
            Some(p) => condition_holds(p, outputs[e.from@]),
            None => false,
        },
    }
}

/// The messages that the first `n` edges hand to `id`.
pub open spec fn routed_upto(
    wf: Workflow,
    run_id: Seq<char>,
    outputs: Map<Seq<char>, Seq<char>>,
    id: Seq<char>,
    n: int,
) -> Seq<MessageView>
    decreases n,
{
    if n <= 0 {
        Seq::empty()
    } else {
        let rest = routed_upto(wf, run_id, outputs, id, n - 1);
        let from = wf.edges@[n - 1].from@;
        if leads_to(wf, n - 1, id) && routes(wf, outputs, n - 1) {
            rest.push(node_message(run_id, from, outputs[from]))
        } else {
            rest
        }
    }
}

/// An edge leads to `id`.
pub open spec fn has_incoming(wf: Workflow, id: Seq<char>) -> bool {
    exists|i: int| leads_to(wf, i, id)
}

/// Every edge into `id`, and there is one, is conditional and routed nothing.
pub open spec fn gated_out(
    wf: Workflow,
    outputs: Map<Seq<char>, Seq<char>>,
    id: Seq<char>,
) -> bool {
    &&& has_incoming(wf, id)
    &&& forall|i: int|
        #![trigger leads_to(wf, i, id)]
        leads_to(wf, i, id) ==> wf.edges@[i].condition is Some && !routes(wf, outputs, i)
}

/// The first input named `task`.
pub open spec fn named_task(inputs: Seq<(String, String)>) -> Option<Seq<char>>
    decreases inputs.len(),
{
    if inputs.len() == 0 {
        None
    } else if inputs[0].0@ == "task"@ {
        Some(inputs[0].1@)
    } else {
        named_task(inputs.drop_first())
    }
}

/// The kickoff task: the input named `task`, or else the first input.
pub open spec fn kickoff_task(wf: Workflow) -> Option<Seq<char>> {
    match named_task(wf.inputs@) {
        Some(t) => Some(t),
        None => if wf.inputs@.len() > 0 {
            Some(wf.inputs@[0].1@)
        } else {
            None
        },
    }
}

/// The loop edge: where it starts, where it leads, and its condition.
pub struct BackEdge {
    pub from: Seq<char>,
    pub to: Seq<char>,
    pub condition: Option<Seq<char>>,
}

/// The text that the loop edge delivers to `id`.
pub open spec fn carried(back: Option<BackEdge>, carry: Option<Seq<char>>, id: Seq<char>) -> Option<
    Seq<char>,
> {
    match back {
        Some(b) => if b.to == id {
            carry
        } else {
            None
        },
        None => None,
    }
}

/// The messages that reach `id`: what its edges hand over, then what the loop
/// edge delivers; a source that nothing reaches gets the kickoff task, in the
/// first pass only.
pub open spec fn inputs_of(
    wf: Workflow,
    run_id: Seq<char>,
    back: Option<BackEdge>,
    iteration: u32,
    st: Progress,
    id: Seq<char>,
) -> Seq<MessageView> {
    let routed = routed_upto(wf, run_id, st.outputs, id, wf.edges@.len() as int);
    let with_carry = match carried(back, st.carry, id) {
        Some(t) => routed.push(node_message(run_id, back->0.from, t)),
        None => routed,
    };
    match kickoff_task(wf) {
        Some(task) => if with_carry.len() == 0 && !has_incoming(wf, id) && iteration == 0 && trim(
            task,
        ).len() > 0 {
            with_carry.push(task_message(run_id, task))
        } else {
            with_carry
        },
        None => with_carry,
    }
}

/// The texts of a list of messages.
pub open spec fn message_texts(ms: Seq<MessageView>) -> Seq<Seq<char>> {
    Seq::new(ms.len(), |i: int| ms[i].text)
}

/// What a person is shown at a gate, given the texts that reached it.
pub open spec fn gate_text(inputs: Seq<Seq<char>>) -> Seq<char> {
    let text = join(inputs, "\n---\n"@);
    if text.len() == 0 {
        "human approval required — no inputs yet"@
    } else {
        text
    }
}

/// The result that records a node which did not run an engine.
pub open spec fn plain_result(
    id: Seq<char>,
    ok: bool,
    text: Seq<char>,
    error: Seq<char>,
    order_idx: u64,
    skipped: bool,
) -> ResultView {
    ResultView {
        node_id: id,
        ok,
        text,
        error,
        wall_ms: 0,
        order_idx,
        tps: None,
        ttft_ms: None,
        gen_tokens: 0,
        skipped,
    }
}

/// The result that records what a runner answered.
pub open spec fn run_result(id: Seq<char>, ev: NodeEvent, order_idx: u64) -> ResultView {
    match ev.outcome {
        Ok(o) => ResultView {
            node_id: id,
            ok: true,
            text: o.text,
            error: Seq::empty(),
            wall_ms: ev.wall_ms,
            order_idx,
            tps: o.tps,
            ttft_ms: o.ttft_ms,
            gen_tokens: o.gen_tokens,
            skipped: false,
        },
        Err(e) => ResultView {
            node_id: id,
            ok: false,
            text: Seq::empty(),
            error: e,
            wall_ms: ev.wall_ms,
            order_idx,
            tps: None,
            ttft_ms: None,
            gen_tokens: 0,
            skipped: false,
        },
    }
}

/// What becomes of a node that is reached.
pub enum Turn {
    /// The token budget is used up, so nothing happens any more.
    Over,
    /// The id names no node.
    Missing,
    /// Gated out.
    Skip,
    /// A person decides; the text shows the inputs.
    Gate(Seq<char>),
    /// The runner is called with these inputs.
    Run(Seq<MessageView>),
}

/// The run has a token budget, and that many tokens have used it up.
pub open spec fn budget_spent(wf: Workflow, tokens: u64) -> bool {
    wf.exec_settings.budget_tokens > 0 && tokens >= wf.exec_settings.budget_tokens
}

/// What becomes of `id` when it is reached.
pub open spec fn turn_of(
    wf: Workflow,
    run_id: Seq<char>,
    back: Option<BackEdge>,
    iteration: u32,
    st: Progress,
    id: Seq<char>,
) -> Turn {
    if budget_spent(wf, st.tokens) {
        Turn::Over
    } else {
        match node_index(wf, id) {
            None => Turn::Missing,
            Some(i) => {
                let inputs = inputs_of(wf, run_id, back, iteration, st, id);
                if gated_out(wf, st.outputs, id) {
                    Turn::Skip
                } else if wf.nodes@[i].kind == NodeKind::Human || wf.nodes@[i].role_id@
                    == "human"@ {
                    Turn::Gate(gate_text(message_texts(inputs)))
                } else {
                    Turn::Run(inputs)
                }
            },
        }
    }
}

/// The carry after `id` was reached: its target takes it.
pub open spec fn carry_after(back: Option<BackEdge>, carry: Option<Seq<char>>, id: Seq<char>) -> Option<
    Seq<char>,
> {
    match back {
        Some(b) => if b.to == id {
            None
        } else {
            carry
        },
        None => carry,
    }
}

/// The progress after `id` took its turn. `ev` is what the runner answered; it
/// counts only where the runner was called.
pub open spec fn after_node(
    wf: Workflow,
    run_id: Seq<char>,
    back: Option<BackEdge>,
    iteration: u32,
    st: Progress,
    id: Seq<char>,
    ev: NodeEvent,
) -> Progress {
    let order = plus(st.results.len() as u64, 1);
    let carry = carry_after(back, st.carry, id);
    match turn_of(wf, run_id, back, iteration, st, id) {
        Turn::Over => st,
        Turn::Missing => Progress {
            any_error: true,
            results: st.results.push(
                plain_result(
                    id,
                    false,
                    Seq::empty(),
                    "node "@ + id + " missing"@,
                    order,
                    false,
                ),
            ),
            ..st
        },
        Turn::Skip => Progress {
            carry,
            results: st.results.push(
                plain_result(id, true, Seq::empty(), Seq::empty(), order, true),
            ),
            ..st
        },
        Turn::Gate(text) => Progress {
            carry,
            results: st.results.push(
                plain_result(id, true, text, Seq::empty(), order, false),
            ),
            outputs: st.outputs.insert(id, text),
            ran: true,
            ..st
        },
        Turn::Run(inputs) => {
            let r = run_result(id, ev, order);
            Progress {
                any_error: st.any_error || !r.ok,
                carry,
                results: st.results.push(r),
                outputs: st.outputs.insert(id, r.text),
                tokens: plus(st.tokens, token_cost(r.text, r.gen_tokens)),
                ran: true,
                asked: st.asked.push(
                    Asked {
                        node: wf.nodes@[node_index(wf, id)->0],
                        inputs,
                        outcome: ev.outcome,
                    },
                ),
            }
        },
    }
}

/// The progress after the nodes of a wave took their turns, in order.
pub open spec fn after_wave(
    wf: Workflow,
    run_id: Seq<char>,
    back: Option<BackEdge>,
    iteration: u32,
    st: Progress,
    wave: Seq<Seq<char>>,
    evs: Seq<NodeEvent>,
) -> Progress
    decreases wave.len(),
{
    if wave.len() == 0 {
        st
    } else {
        after_node(
            wf,
            run_id,
            back,
            iteration,
            after_wave(wf, run_id, back, iteration, st, wave.drop_last(), evs),
            wave.last(),
            evs[wave.len() - 1],
        )
    }
}

/// The progress after the first `n` waves ran.
pub open spec fn after_waves(
    wf: Workflow,
    run_id: Seq<char>,
    back: Option<BackEdge>,
    iteration: u32,
    st: Progress,
    waves: Seq<Seq<Seq<char>>>,
    evs: Seq<Seq<NodeEvent>>,
    n: int,
) -> Progress
    decreases n,
{
    if n <= 0 {
        st
    } else {
        after_wave(
            wf,
            run_id,
            back,
            iteration,
            after_waves(wf, run_id, back, iteration, st, waves, evs, n - 1),
            waves[n - 1],
            evs[n - 1],
        )
    }
}


/// Where a run learns that it is to stop.
pub enum StopSignal<'a> {
    /// From a flag, which may change at any time.
    Flag(&'a AtomicBool),
    /// From a value that stays as it is.
    Steady(bool),
}

/// A sequentially consistent read of the flag gave `r`.
pub closed spec fn flag_read(flag: &AtomicBool, r: bool) -> bool {
    call_ensures(AtomicBool::load, (flag, std::sync::atomic::Ordering::SeqCst), r)
}

impl<'a> StopSignal<'a> {
    /// A look at the signal gave `r`.
    pub open spec fn said(self, r: bool) -> bool {
        match self {
            StopSignal::Flag(flag) => flag_read(flag, r),
            StopSignal::Steady(b) => r == b,
        }
    }

    fn look(&self) -> (r: bool)
        ensures
            self.said(r),
    {
        match self {
            StopSignal::Flag(flag) => flag_value(flag),
            StopSignal::Steady(b) => *b,
        }
    }
}

/// What happened to a run: the signal was up before a pass, or a pass ran
/// these waves (all of them, unless the signal was up between two).
pub enum RunEvent {
    StopSeen,
    Pass(Seq<Seq<NodeEvent>>),
}

/// The pass has an answer for each node of the waves that it ran.
pub open spec fn event_fits(waves: Seq<Seq<Seq<char>>>, ev: RunEvent) -> bool {
    match ev {
        RunEvent::StopSeen => true,
        RunEvent::Pass(evs) => evs.len() <= waves.len() && forall|k: int|
            0 <= k < evs.len() ==> (#[trigger] evs[k]).len() == waves[k].len(),
    }
}

/// What the signal said to a pass: it was down before each wave that began, and
/// up where waves were left.
pub open spec fn pass_watched(
    stop: StopSignal,
    waves: Seq<Seq<Seq<char>>>,
    evs: Seq<Seq<NodeEvent>>,
) -> bool {
    &&& evs.len() > 0 ==> stop.said(false)
    &&& evs.len() < waves.len() ==> stop.said(true)
}

/// What follows a pass.
pub enum NextPass {
    /// The run is over.
    End,
    /// The run is over because the token budget is used up.
    OutOfBudget,
    /// The body runs again; the text goes to the target of the loop edge.
    Again(Seq<char>),
}

/// What follows a pass after which the body has run `iterations` times.
pub open spec fn next_pass(
    wf: Workflow,
    back: Option<BackEdge>,
    st: Progress,
    iterations: u32,
) -> NextPass {
    let settings = wf.exec_settings;
    match back {
        None => NextPass::End,
        Some(b) => if !st.ran || settings.max_iterations == 0 || iterations
            >= settings.max_iterations {
            NextPass::End
        } else if budget_spent(wf, st.tokens) {
            NextPass::OutOfBudget
        } else if !st.outputs.dom().contains(b.from) {
            NextPass::End
        } else {
            match b.condition {
                None => NextPass::Again(st.outputs[b.from]),
                Some(c) => match condition_of(c) {
                    Some(p) => if condition_holds(p, st.outputs[b.from]) {
                        NextPass::Again(st.outputs[b.from])
                    } else {
                        NextPass::End
                    },
                    None => NextPass::End,
                },
            }
        },
    }
}

/// A run between passes.
pub struct RunState {
    pub progress: Progress,
    pub iterations: u32,
    pub stopped: bool,
    pub finished: bool,
}

/// A run that has not begun.
pub open spec fn fresh_run() -> RunState {
    RunState {
        progress: Progress {
            any_error: false,
            outputs: Map::empty(),
            results: Seq::empty(),
            tokens: 0,
            carry: None,
            ran: false,
            asked: Seq::empty(),
        },
        iterations: 0,
        stopped: false,
        finished: false,
    }
}

/// The run after one more pass.
pub open spec fn after_pass(
    wf: Workflow,
    run_id: Seq<char>,
    waves: Seq<Seq<Seq<char>>>,
    back: Option<BackEdge>,
    rs: RunState,
    evs: Seq<Seq<NodeEvent>>,
) -> RunState {
    let st = after_waves(
        wf,
        run_id,
        back,
        rs.iterations,
        Progress { ran: false, ..rs.progress },
        waves,
        evs,
        evs.len() as int,
    );
    let iterations = (rs.iterations + 1) as u32;
    let spent = budget_spent(wf, st.tokens) && st.tokens > rs.progress.tokens;
    match next_pass(wf, back, st, iterations) {
        NextPass::End => RunState {
            progress: st,
            iterations,
            stopped: rs.stopped || spent,
            finished: true,
        },
        NextPass::OutOfBudget => RunState {
            progress: st,
            iterations,
            stopped: true,
            finished: true,
        },
        NextPass::Again(text) => RunState {
            progress: Progress { carry: Some(text), ..st },
            iterations,
            stopped: rs.stopped || spent,
            finished: false,
        },
    }
}

/// The run after one more event; a finished run stays as it is.
pub open spec fn after_event(
    wf: Workflow,
    run_id: Seq<char>,
    waves: Seq<Seq<Seq<char>>>,
    back: Option<BackEdge>,
    rs: RunState,
    ev: RunEvent,
) -> RunState {
    if rs.finished {
        rs
    } else {
        match ev {
            RunEvent::StopSeen => RunState { stopped: true, finished: true, ..rs },
            RunEvent::Pass(evs) => after_pass(wf, run_id, waves, back, rs, evs),
        }
    }
}

/// The run after a list of events.
pub open spec fn run_state(
    wf: Workflow,
    run_id: Seq<char>,
    waves: Seq<Seq<Seq<char>>>,
    back: Option<BackEdge>,
    evs: Seq<RunEvent>,
) -> RunState
    decreases evs.len(),
{
    if evs.len() == 0 {
        fresh_run()
    } else {
        after_event(
            wf,
            run_id,
            waves,
            back,
            run_state(wf, run_id, waves, back, evs.drop_last()),
            evs.last(),
        )
    }
}

/// The loop edge as the driver reads it.
pub open spec fn back_view(e: Option<WorkflowEdge>) -> Option<BackEdge> {
    match e {
        Some(e) => Some(
            BackEdge { from: e.from@, to: e.to@, condition: opt_text(e.condition) },
        ),
        None => None,
    }
}

/// The status of a finished run.
pub open spec fn status_of(rs: RunState) -> WorkflowRunStatus {
    if rs.stopped {
        WorkflowRunStatus::Stopped
    } else if rs.progress.any_error {
        WorkflowRunStatus::Partial
    } else {
        WorkflowRunStatus::Done
    }
}

/// The report says what the finished run did.
pub open spec fn reports(r: ExecReport, run_id: Seq<char>, rs: RunState) -> bool {
    &&& rs.finished
    &&& r.run_id@ == run_id
    &&& r.status == status_of(rs)
    &&& result_views(r.node_results@) == rs.progress.results
    &&& r.tokens_used == rs.progress.tokens
    &&& r.iterations == rs.iterations
}

/// The runner answered so for a node with these inputs.
pub open spec fn runner_said<R: NodeRunner>(
    runner: &R,
    node: WorkflowNode,
    inputs: Seq<MessageView>,
    outcome: Result<OutcomeView, Seq<char>>,
) -> bool {
    exists|ms: &[Message], o: Result<NodeOutcome, String>|
        are_text_messages(ms@, inputs) && #[trigger] call_ensures(R::run, (runner, &node, ms), o)
            && outcome == outcome_view(o)
}

/// Where `id` runs, the event is what the runner answered for its node and the
/// inputs that reached it.
pub open spec fn node_answered<R: NodeRunner>(
    runner: &R,
    wf: Workflow,
    run_id: Seq<char>,
    back: Option<BackEdge>,
    iteration: u32,
    st: Progress,
    id: Seq<char>,
    ev: NodeEvent,
) -> bool {
    match turn_of(wf, run_id, back, iteration, st, id) {
        Turn::Run(inputs) => runner_said(
            runner,
            wf.nodes@[node_index(wf, id)->0],
            inputs,
            ev.outcome,
        ),
        _ => true,
    }
}

/// Event `m` of a wave is what the runner answered.
pub open spec fn turn_answered<R: NodeRunner>(
    runner: &R,
    wf: Workflow,
    run_id: Seq<char>,
    back: Option<BackEdge>,
    iteration: u32,
    st: Progress,
    wave: Seq<Seq<char>>,
    evs: Seq<NodeEvent>,
    m: int,
) -> bool {
    node_answered(
        runner,
        wf,
        run_id,
        back,
        iteration,
        after_wave(wf, run_id, back, iteration, st, wave.take(m), evs),
        wave[m],
        evs[m],
    )
}

/// The events of wave `k` of a pass are what the runner answered.
pub open spec fn wave_answered<R: NodeRunner>(
    runner: &R,
    wf: Workflow,
    run_id: Seq<char>,
    back: Option<BackEdge>,
    iteration: u32,
    st: Progress,
    waves: Seq<Seq<Seq<char>>>,
    evs: Seq<Seq<NodeEvent>>,
    k: int,
) -> bool {
    let before = after_waves(wf, run_id, back, iteration, st, waves, evs, k);
    forall|m: int|
        0 <= m < evs[k].len() ==> #[trigger] turn_answered(
            runner,
            wf,
            run_id,
            back,
            iteration,
            before,
            waves[k],
            evs[k],
            m,
        )
}

/// The events of a pass are what the runner answered.
pub open spec fn pass_answered<R: NodeRunner>(
    runner: &R,
    wf: Workflow,
    run_id: Seq<char>,
    back: Option<BackEdge>,
    iteration: u32,
    st: Progress,
    waves: Seq<Seq<Seq<char>>>,
    evs: Seq<Seq<NodeEvent>>,
) -> bool {
    forall|k: int|
        0 <= k < evs.len() ==> #[trigger] wave_answered(
            runner,
            wf,
            run_id,
            back,
            iteration,
            st,
            waves,
            evs,
            k,
        )
}

/// Event `k` of a run is what the runner and the signal answered.
pub open spec fn event_answered<R: NodeRunner>(
    runner: &R,
    stop: StopSignal,
    wf: Workflow,
    run_id: Seq<char>,
    waves: Seq<Seq<Seq<char>>>,
    back: Option<BackEdge>,
    evs: Seq<RunEvent>,
    k: int,
) -> bool {
    let rs = run_state(wf, run_id, waves, back, evs.take(k));
    match evs[k] {
        RunEvent::Pass(pass) => stop.said(false) && pass_watched(stop, waves, pass) && pass_answered(
            runner,
            wf,
            run_id,
            back,
            rs.iterations,
            Progress { ran: false, ..rs.progress },
            waves,
            pass,
        ),
        RunEvent::StopSeen => stop.said(true),
    }
}

/// The report is that of a run of the workflow's schedule, in which the runner
/// was asked this, and each node that ran got what the runner answered for it.
/// The run went on where the signal was down, and only there.
pub open spec fn is_run_of<R: NodeRunner>(
    wf: Workflow,
    runner: &R,
    stop: StopSignal,
    run_id: Seq<char>,
    r: ExecReport,
    asked: Seq<Asked>,
) -> bool {
    exists|waves: Seq<Seq<Seq<char>>>, evs: Seq<RunEvent>|
        {
            &&& is_schedule(wf, waves)
            &&& forall|k: int| 0 <= k < evs.len() ==> event_fits(waves, #[trigger] evs[k])
            &&& forall|k: int|
                0 <= k < evs.len() ==> #[trigger] event_answered(
                    runner,
                    stop,
                    wf,
                    run_id,
                    waves,
                    back_view(only_loop_edge(wf)),
                    evs,
                    k,
                )
            &&& run_state(wf, run_id, waves, back_view(only_loop_edge(wf)), evs).progress.asked
                == asked
            &&& #[trigger] reports(
                r,
                run_id,
                run_state(wf, run_id, waves, back_view(only_loop_edge(wf)), evs),
            )
        }
}

/// The text that each key was given last.
pub open spec fn last_texts(v: Seq<(String, String)>) -> Map<Seq<char>, Seq<char>>
    decreases v.len(),
{
    if v.len() == 0 {
        Map::empty()
    } else {
        last_texts(v.drop_last()).insert(v.last().0@, v.last().1@)
    }
}

/// The driver's record of a run.
pub struct Ledger {
    pub any_error: bool,
    /// The texts that nodes produced, oldest first.
    pub outputs: Vec<(String, String)>,
    pub results: Vec<NodeResult>,
    pub tokens: u64,
    pub carry: Option<String>,
    pub ran: bool,
    /// What the runner was asked, in order.
    pub asked: Ghost<Seq<Asked>>,
}

impl View for Ledger {
    type V = Progress;

    open spec fn view(&self) -> Progress {
        Progress {
            any_error: self.any_error,
            outputs: last_texts(self.outputs@),
            results: result_views(self.results@),
            tokens: self.tokens,
            carry: opt_text(self.carry),
            ran: self.ran,
            asked: self.asked@,
        }
    }
}

/// The text that a key was given last.
fn last_text<'a>(v: &'a Vec<(String, String)>, key: &str) -> (r: Option<&'a String>)
    ensures
        match r {
            Some(t) => last_texts(v@).dom().contains(key@) && last_texts(v@)[key@] == t@,
            None => !last_texts(v@).dom().contains(key@),
        },
{
    let mut n: usize = v.len();
    assert(v@.take(n as int) =~= v@);
    while n > 0
        invariant
            n <= v@.len(),
            last_texts(v@).dom().contains(key@) == last_texts(v@.take(n as int)).dom().contains(
                key@,
            ),
            last_texts(v@.take(n as int)).dom().contains(key@) ==> last_texts(v@)[key@]
                == last_texts(v@.take(n as int))[key@],
        decreases n,
    {
        assert(v@.take(n as int).drop_last() =~= v@.take(n - 1));
        assert(v@.take(n as int).last() == v@[n - 1]);
        if same(v[n - 1].0.as_str(), key) {
            return Some(&v[n - 1].1);
        }
        n = n - 1;
    }
    assert(v@.take(0) =~= Seq::<(String, String)>::empty());
    None
}

/// The parts put behind one another.
fn cat3(a: &str, b: &str, c: &str) -> (r: String)
    ensures
        r@ == a@ + b@ + c@,
{
    let mut r = owned(a);
    r.append(b);
    r.append(c);
    r
}

fn text_message(id: String, node_run_id: String, text: &str) -> (m: Message)
    ensures
        is_text_message(
            m,
            (MessageView { id: id@, node_run_id: node_run_id@, text: text@ }),
        ),
{
    Message {
        id,
        node_run_id,
        kind: MessageKind::Text,
        text: owned(text),
        structured: None,
        ref_path: None,
        meta: Vec::new(),
    }
}

/// The message that a node's text becomes.
pub fn message_of_node(run_id: &str, id: &str, text: &str) -> (m: Message)
    ensures
        is_text_message(m, node_message(run_id@, id@, text@)),
{
    let mut mid = owned("m-");
    mid.append(id);
    text_message(mid, cat3(run_id, "-", id), text)
}

/// The message that the kickoff task becomes.
pub fn message_of_task(run_id: &str, task: &str) -> (m: Message)
    ensures
        is_text_message(m, task_message(run_id@, task@)),
{
    let mut rid = owned(run_id);
    rid.append("-input");
    text_message(owned("m-input-task"), rid, task)
}

/// Whether a condition can be read and holds of a text; none always holds.
pub fn condition_passes(condition: &Option<String>, text: &str) -> (r: bool)
    ensures
        r == match opt_text(*condition) {
            None => true,
            Some(c) => match condition_of(c) {
                Some(p) => condition_holds(p, text@),
                None => false,
            },
        },
{
    match condition {
        None => true,
        Some(c) => match EdgePredicate::parse(c.as_str()) {
            Ok(p) => p.eval(text),
            Err(_) => false,
        },
    }
}

/// The kickoff task of a workflow.
pub fn task_of(wf: &Workflow) -> (r: Option<String>)
    ensures
        opt_text(r) == kickoff_task(*wf),
{
    let mut i: usize = 0;
    assert(wf.inputs@.skip(0) =~= wf.inputs@);
    while i < wf.inputs.len()
        invariant
            i <= wf.inputs@.len(),
            named_task(wf.inputs@) == named_task(wf.inputs@.skip(i as int)),
        decreases wf.inputs@.len() - i,
    {
        if same(wf.inputs[i].0.as_str(), "task") {
            return Some(owned(wf.inputs[i].1.as_str()));
        }
        assert(wf.inputs@.skip(i as int).drop_first() =~= wf.inputs@.skip(i + 1));
        i = i + 1;
    }
    assert(wf.inputs@.skip(i as int).len() == 0);
    if wf.inputs.len() > 0 {
        Some(owned(wf.inputs[0].1.as_str()))
    } else {
        None
    }
}

/// What the edges into a node delivered.
pub struct Delivery {
    pub inputs: Vec<Message>,
    pub incoming: bool,
    pub gated: bool,
}

/// Collects what the forward edges hand to `id`, whether there are any, and
/// whether they gate the node out.
pub fn deliver(wf: &Workflow, run_id: &str, outputs: &Vec<(String, String)>, id: &str) -> (d:
    Delivery)
    ensures
        are_text_messages(
            d.inputs@,
            routed_upto(*wf, run_id@, last_texts(outputs@), id@, wf.edges@.len() as int),
        ),
        d.incoming == has_incoming(*wf, id@),
        d.gated == gated_out(*wf, last_texts(outputs@), id@),
{
    let mut inputs: Vec<Message> = Vec::new();
    let mut incoming = false;
    let mut all_gated = true;
    let mut i: usize = 0;
    let ghost outs = last_texts(outputs@);
    while i < wf.edges.len()
        invariant
            i <= wf.edges@.len(),
            outs == last_texts(outputs@),
            are_text_messages(inputs@, routed_upto(*wf, run_id@, outs, id@, i as int)),
            incoming == exists|j: int| j < i && leads_to(*wf, j, id@),
            all_gated == forall|j: int|
                #![trigger leads_to(*wf, j, id@)]
                j < i && leads_to(*wf, j, id@) ==> wf.edges@[j].condition is Some && !routes(
                    *wf,
                    outs,
                    j,
                ),
        decreases wf.edges@.len() - i,
    {
        let e = &wf.edges[i];
        if !e.loop_edge && same(e.to.as_str(), id) {
            assert(leads_to(*wf, i as int, id@));
            incoming = true;
            if e.condition.is_none() {
                all_gated = false;
            }
            match last_text(outputs, e.from.as_str()) {
                Some(t) => {
                    if condition_passes(&e.condition, t.as_str()) {
                        inputs.push(message_of_node(run_id, e.from.as_str(), t.as_str()));
                        all_gated = false;
                    }
                },
                None => {},
            }
        }
        i = i + 1;
    }
    assert(incoming == has_incoming(*wf, id@)) by {
        if has_incoming(*wf, id@) {
            let j = choose|j: int| leads_to(*wf, j, id@);
            assert(j < i && leads_to(*wf, j, id@));
        }
    }
    Delivery { inputs, incoming, gated: incoming && all_gated }
}


/// The position of the first node with an id.
fn find_node(wf: &Workflow, id: &str) -> (r: Option<usize>)
    ensures
        match r {
            Some(i) => node_index(*wf, id@) == Some(i as int) && i < wf.nodes@.len(),
            None => node_index(*wf, id@) is None,
        },
{
    let mut i: usize = 0;
    while i < wf.nodes.len()
        invariant
            i <= wf.nodes@.len(),
            node_index(*wf, id@) == node_index_from(*wf, id@, i as int),
        decreases wf.nodes@.len() - i,
    {
        if same(wf.nodes[i].id.as_str(), id) {
            return Some(i);
        }
        i = i + 1;
    }
    None
}

/// The messages that reach a node, and what is left of the loop's carry.
pub fn gather_inputs(
    wf: &Workflow,
    run_id: &str,
    back: &Option<WorkflowEdge>,
    iteration: u32,
    st: &Ledger,
    id: &str,
) -> (d: Delivery)
    ensures
        are_text_messages(
            d.inputs@,
            inputs_of(*wf, run_id@, back_view(*back), iteration, st@, id@),
        ),
        d.incoming == has_incoming(*wf, id@),
        d.gated == gated_out(*wf, st@.outputs, id@),
{
    let mut d = deliver(wf, run_id, &st.outputs, id);
    match back {
        Some(b) => {
            if same(b.to.as_str(), id) {
                match &st.carry {
                    Some(t) => {
                        d.inputs.push(message_of_node(run_id, b.from.as_str(), t.as_str()));
                    },
                    None => {},
                }
            }
        },
        None => {},
    }
    if d.inputs.len() == 0 && !d.incoming && iteration == 0 {
        match task_of(wf) {
            Some(task) => {
                let trimmed = str_trim(task.as_str());
                if !trimmed.as_str().is_empty() {
                    d.inputs.push(message_of_task(run_id, task.as_str()));
                }
            },
            None => {},
        }
    }
    d
}

/// The texts of a list of messages.
fn texts_of(ms: &Vec<Message>) -> (r: Vec<String>)
    ensures
        r@.len() == ms@.len(),
        forall|i: int| 0 <= i < r@.len() ==> (#[trigger] r@[i])@ == ms@[i].text@,
{
    let mut r: Vec<String> = Vec::new();
    let mut i: usize = 0;
    while i < ms.len()
        invariant
            i <= ms@.len(),
            r@.len() == i,
            forall|j: int| 0 <= j < i ==> (#[trigger] r@[j])@ == ms@[j].text@,
        decreases ms@.len() - i,
    {
        r.push(owned(ms[i].text.as_str()));
        i = i + 1;
    }
    r
}

/// What a person is shown at a gate.
pub fn text_at_gate(inputs: &Vec<Message>) -> (r: String)
    ensures
        r@ == gate_text(Seq::new(inputs@.len(), |i: int| inputs@[i].text@)),
{
    let parts = texts_of(inputs);
    assert(texts(parts@) =~= Seq::new(inputs@.len(), |i: int| inputs@[i].text@));
    let text = join_texts(&parts, "\n---\n");
    if text.as_str().is_empty() {
        owned("human approval required — no inputs yet")
    } else {
        text
    }
}

fn plain(id: &str, ok: bool, text: &str, error: &str, order_idx: u64, skipped: bool) -> (r:
    NodeResult)
    ensures
        r@ == plain_result(id@, ok, text@, error@, order_idx, skipped),
{
    NodeResult {
        node_id: owned(id),
        ok,
        text: owned(text),
        error: owned(error),
        wall_ms: 0,
        order_idx,
        tps: None,
        ttft_ms: None,
        gen_tokens: 0,
        skipped,
    }
}

impl Ledger {
    /// A record of nothing.
    pub fn new() -> (r: Ledger)
        ensures
            r@ == fresh_run().progress,
    {
        let r = Ledger {
            any_error: false,
            outputs: Vec::new(),
            results: Vec::new(),
            tokens: 0,
            carry: None,
            ran: false,
            asked: Ghost(Seq::empty()),
        };
        assert(r@.results =~= Seq::<ResultView>::empty());
        r
    }

    fn push_result(&mut self, r: NodeResult)
        ensures
            final(self)@ == (Progress { results: old(self)@.results.push(r@), ..old(self)@ }),
    {
        let ghost before = self@.results;
        self.results.push(r);
        assert(self@.results =~= before.push(r@));
    }

    fn push_output(&mut self, id: &str, text: &str)
        ensures
            final(self)@ == (Progress {
                outputs: old(self)@.outputs.insert(id@, text@),
                ..old(self)@
            }),
    {
        let ghost before = self.outputs@;
        self.outputs.push((owned(id), owned(text)));
        assert(self.outputs@.drop_last() =~= before);
    }

    /// Records what a runner answered for a node.
    pub fn record(&mut self, id: &str, outcome: Result<NodeOutcome, String>, wall_ms: u64)
        ensures
            ({
                let ev = NodeEvent { outcome: outcome_view(outcome), wall_ms };
                let r = run_result(id@, ev, plus(old(self)@.results.len() as u64, 1));
                final(self)@ == Progress {
                    any_error: old(self)@.any_error || !r.ok,
                    results: old(self)@.results.push(r),
                    outputs: old(self)@.outputs.insert(id@, r.text),
                    tokens: plus(old(self)@.tokens, token_cost(r.text, r.gen_tokens)),
                    ran: true,
                    carry: old(self)@.carry,
                    asked: old(self)@.asked,
                }
            }),
    {
        let order_idx: u64 = (self.results.len() as u64).saturating_add(1);
        let ghost ev = NodeEvent { outcome: outcome_view(outcome), wall_ms };
        let r = match outcome {
            Ok(o) => NodeResult {
                node_id: owned(id),
                ok: true,
                text: o.text,
                error: String::new(),
                wall_ms,
                order_idx,
                tps: o.tps,
                ttft_ms: o.ttft_ms,
                gen_tokens: o.gen_tokens,
                skipped: false,
            },
            Err(e) => NodeResult {
                node_id: owned(id),
                ok: false,
                text: String::new(),
                error: e,
                wall_ms,
                order_idx,
                tps: None,
                ttft_ms: None,
                gen_tokens: 0,
                skipped: false,
            },
        };
        assert(r@ == run_result(id@, ev, order_idx));
        let cost: u64 = if r.gen_tokens > 0 {
            r.gen_tokens
        } else {
            (r.text.as_str().len() / 4) as u64
        };
        if !r.ok {
            self.any_error = true;
        }
        self.tokens = self.tokens.saturating_add(cost);
        self.ran = true;
        self.push_output(id, r.text.as_str());
        self.push_result(r);
    }
}

/// The values of what a runner answered.
pub open spec fn outcome_view(o: Result<NodeOutcome, String>) -> Result<OutcomeView, Seq<char>> {
    match o {
        Ok(o) => Ok(
            OutcomeView {
                text: o.text@,
                tps: o.tps,
                ttft_ms: o.ttft_ms,
                gen_tokens: o.gen_tokens,
            },
        ),
        Err(e) => Err(e@),
    }
}

/// A point in time of the machine's monotonic clock.
#[verifier::external_type_specification]
#[verifier::external_body]
pub struct ExInstant(std::time::Instant);

/// `Instant::now` of the standard library. Nothing is claimed of the time.
#[verifier::external_body]
fn clock_now() -> (r: std::time::Instant) {
    std::time::Instant::now()
}

/// `Instant::elapsed` of the standard library, in whole milliseconds. Nothing
/// is claimed of the time.
#[verifier::external_body]
fn elapsed_ms(start: &std::time::Instant) -> (r: u64) {
    start.elapsed().as_millis() as u64
}

/// Reads a flag.
fn flag_value(flag: &AtomicBool) -> (r: bool)
    ensures
        flag_read(flag, r),
{
    flag.load(std::sync::atomic::Ordering::SeqCst)
}

/// Whether the token budget is used up; zero means that there is none.
fn out_of_budget(wf: &Workflow, tokens: u64) -> (r: bool)
    ensures
        r == budget_spent(*wf, tokens),
{
    wf.exec_settings.budget_tokens > 0 && tokens >= wf.exec_settings.budget_tokens
}

/// Gives one node its turn.
fn run_node<R: NodeRunner>(
    wf: &Workflow,
    run_id: &str,
    back: &Option<WorkflowEdge>,
    iteration: u32,
    st: &mut Ledger,
    id: &str,
    turns: &mut Turns<R>,
) -> (ev: Ghost<NodeEvent>)
    ensures
        final(turns).runner() == old(turns).runner(),
        in_step(old(turns)@, old(st)@.asked, final(turns)@, final(st)@.asked),
        final(st)@ == after_node(
            *wf,
            run_id@,
            back_view(*back),
            iteration,
            old(st)@,
            id@,
            ev@,
        ),
        node_answered(
            old(turns).runner(),
            *wf,
            run_id@,
            back_view(*back),
            iteration,
            old(st)@,
            id@,
            ev@,
        ),
{
    let ghost st0 = st@;
    let ghost calls = turns@;
    let ghost runner = turns.runner();
    proof {
        lemma_in_place(calls, st0.asked);
    }
    let order_idx: u64 = (st.results.len() as u64).saturating_add(1);
    let ghost none = NodeEvent { outcome: Err(Seq::empty()), wall_ms: 0 };
    if out_of_budget(wf, st.tokens) {
        return Ghost(none);
    }
    let at = match find_node(wf, id) {
        Some(at) => at,
        None => {
            let error = cat3("node ", id, " missing");
            st.any_error = true;
            st.push_result(plain(id, false, "", error.as_str(), order_idx, false));
            proof {
                reveal_strlit("");
                assert(""@ =~= Seq::<char>::empty());
            }
            return Ghost(none);
        },
    };
    let node = &wf.nodes[at];
    let d = gather_inputs(wf, run_id, back, iteration, st, id);
    let ghost ins = inputs_of(*wf, run_id@, back_view(*back), iteration, st@, id@);
    match back {
        Some(b) => {
            if same(b.to.as_str(), id) {
                st.carry = None;
            }
        },
        None => {},
    }
    proof {
        reveal_strlit("");
        assert(""@ =~= Seq::<char>::empty());
    }
    if d.gated {
        st.push_result(plain(id, true, "", "", order_idx, true));
        return Ghost(none);
    }
    if node.kind == NodeKind::Human || same(node.role_id.as_str(), "human") {
        let text = text_at_gate(&d.inputs);
        assert(Seq::new(d.inputs@.len(), |i: int| d.inputs@[i].text@) =~= message_texts(ins)) by {
            assert forall|i: int| 0 <= i < ins.len() implies d.inputs@[i].text@ == ins[i].text by {
                assert(is_text_message(d.inputs@[i], ins[i]));
            }
        }
        st.push_result(plain(id, true, text.as_str(), "", order_idx, false));
        st.push_output(id, text.as_str());
        st.ran = true;
        return Ghost(none);
    }
    let t = clock_now();
    let messages = d.inputs.as_slice();
    let outcome = turns.run(node, messages);
    assert(call_ensures(R::run, (runner, node, messages), outcome));
    assert(runner_said(runner, *node, ins, outcome_view(outcome)));
    let wall_ms = elapsed_ms(&t);
    let ghost ev = NodeEvent { outcome: outcome_view(outcome), wall_ms };
    let ghost a = Asked { node: *node, inputs: ins, outcome: outcome_view(outcome) };
    proof {
        let c = turns@.last();
        assert(is_asked(c, a));
        assert(turns@.take(calls.len() as int) =~= calls);
        assert(turns@.skip(calls.len() as int) =~= seq![c]);
        assert(st0.asked.push(a).take(st0.asked.len() as int) =~= st0.asked);
        assert(st0.asked.push(a).skip(st0.asked.len() as int) =~= seq![a]);
    }
    st.asked = Ghost(st.asked@.push(a));
    st.record(id, outcome, wall_ms);
    Ghost(ev)
}

/// The pass ran these answers' waves: as far as the signal let it, with what
/// the runner answered, from one state of the run to another.
pub open spec fn is_pass<R: NodeRunner>(
    wf: Workflow,
    waves: Seq<Seq<Seq<char>>>,
    run_id: Seq<char>,
    back: Option<BackEdge>,
    iteration: u32,
    before: Progress,
    after: Progress,
    runner: &R,
    stop: StopSignal,
    evs: Seq<Seq<NodeEvent>>,
) -> bool {
    let start = Progress { ran: false, ..before };
    &&& event_fits(waves, RunEvent::Pass(evs))
    &&& pass_watched(stop, waves, evs)
    &&& pass_answered(runner, wf, run_id, back, iteration, start, waves, evs)
    &&& after == after_waves(
        wf,
        run_id,
        back,
        iteration,
        start,
        waves,
        evs,
        evs.len() as int,
    )
}

/// Runs the waves in order, and looks at the signal before each. Says whether a
/// node ran.
pub fn run_pass<R: NodeRunner>(
    wf: &Workflow,
    waves: &Vec<Vec<String>>,
    run_id: &str,
    back: &Option<WorkflowEdge>,
    iteration: u32,
    st: &mut Ledger,
    turns: &mut Turns<R>,
    stop: &StopSignal,
) -> (ran: bool)
    ensures
        ran == final(st)@.ran,
        final(turns).runner() == old(turns).runner(),
        in_step(old(turns)@, old(st)@.asked, final(turns)@, final(st)@.asked),
        exists|evs: Seq<Seq<NodeEvent>>| #[trigger]
            is_pass(
                *wf,
                wave_texts(waves@),
                run_id@,
                back_view(*back),
                iteration,
                old(st)@,
                final(st)@,
                old(turns).runner(),
                *stop,
                evs,
            ),
{
    let ghost runner = turns.runner();
    proof {
        lemma_in_place(turns@, st@.asked);
    }
    st.ran = false;
    let ghost st0 = st@;
    let ghost bv = back_view(*back);
    let ghost ws = wave_texts(waves@);
    let ghost mut all: Seq<Seq<NodeEvent>> = Seq::empty();
    let mut k: usize = 0;
    while k < waves.len()
        invariant
            k <= waves@.len(),
            ws == wave_texts(waves@),
            bv == back_view(*back),
            st0 == (Progress { ran: false, ..old(st)@ }),
            all.len() == k,
            forall|j: int| 0 <= j < k ==> (#[trigger] all[j]).len() == ws[j].len(),
            st@ == after_waves(*wf, run_id@, bv, iteration, st0, ws, all, k as int),
            runner == old(turns).runner(),
            turns.runner() == runner,
            in_step(old(turns)@, old(st)@.asked, turns@, st@.asked),
            pass_answered(runner, *wf, run_id@, bv, iteration, st0, ws, all),
            all.len() > 0 ==> stop.said(false),
        decreases waves@.len() - k,
    {
        if stop.look() {
            assert(is_pass(*wf, ws, run_id@, bv, iteration, old(st)@, st@, runner, *stop, all));
            return st.ran;
        }
        let wave = &waves[k];
        let ghost w = ws[k as int];
        assert(w == texts(wave@));
        let ghost st1 = st@;
        let ghost mut evs: Seq<NodeEvent> = Seq::empty();
        let mut i: usize = 0;
        while i < wave.len()
            invariant
                i <= wave@.len(),
                w == texts(wave@),
                bv == back_view(*back),
                evs.len() == i,
                st@ == after_wave(*wf, run_id@, bv, iteration, st1, w.take(i as int), evs),
                turns.runner() == runner,
                in_step(old(turns)@, old(st)@.asked, turns@, st@.asked),
                forall|m: int|
                    0 <= m < i ==> #[trigger] turn_answered(
                        runner,
                        *wf,
                        run_id@,
                        bv,
                        iteration,
                        st1,
                        w,
                        evs,
                        m,
                    ),
            decreases wave@.len() - i,
        {
            let ghost before = evs;
            let ghost calls = turns@;
            let ghost asked = st@.asked;
            let ev = run_node(wf, run_id, back, iteration, st, wave[i].as_str(), turns);
            proof {
                lemma_in_step(
                    old(turns)@,
                    old(st)@.asked,
                    calls,
                    asked,
                    turns@,
                    st@.asked,
                );
                evs = evs.push(ev@);
                assert(w.take(i + 1).drop_last() =~= w.take(i as int));
                lemma_wave_prefix(
                    *wf,
                    run_id@,
                    bv,
                    iteration,
                    st1,
                    w.take(i as int),
                    before,
                    evs,
                );
                assert forall|m: int| 0 <= m < i + 1 implies #[trigger] turn_answered(
                    runner,
                    *wf,
                    run_id@,
                    bv,
                    iteration,
                    st1,
                    w,
                    evs,
                    m,
                ) by {
                    lemma_wave_prefix(*wf, run_id@, bv, iteration, st1, w.take(m), before, evs);
                    if m < i {
                        assert(turn_answered(
                            runner,
                            *wf,
                            run_id@,
                            bv,
                            iteration,
                            st1,
                            w,
                            before,
                            m,
                        ));
                    }
                }
            }
            i = i + 1;
        }
        proof {
            assert(w.take(i as int) =~= w);
            let old_all = all;
            all = all.push(evs);
            lemma_waves_prefix(*wf, run_id@, bv, iteration, st0, ws, old_all, all, k as int);
            assert forall|j: int| 0 <= j < all.len() implies #[trigger] wave_answered(
                runner,
                *wf,
                run_id@,
                bv,
                iteration,
                st0,
                ws,
                all,
                j,
            ) by {
                lemma_waves_prefix(*wf, run_id@, bv, iteration, st0, ws, old_all, all, j);
                if j < k {
                    assert(wave_answered(
                        runner,
                        *wf,
                        run_id@,
                        bv,
                        iteration,
                        st0,
                        ws,
                        old_all,
                        j,
                    ));
                }
            }
        }
        k = k + 1;
    }
    assert(is_pass(*wf, ws, run_id@, bv, iteration, old(st)@, st@, runner, *stop, all));
    st.ran
}

proof fn lemma_wave_prefix(
    wf: Workflow,
    run_id: Seq<char>,
    back: Option<BackEdge>,
    iteration: u32,
    st: Progress,
    wave: Seq<Seq<char>>,
    a: Seq<NodeEvent>,
    b: Seq<NodeEvent>,
)
    requires
        wave.len() <= a.len() <= b.len(),
        forall|i: int| 0 <= i < wave.len() ==> a[i] == b[i],
    ensures
        after_wave(wf, run_id, back, iteration, st, wave, a) == after_wave(
            wf,
            run_id,
            back,
            iteration,
            st,
            wave,
            b,
        ),
    decreases wave.len(),
{
    if wave.len() > 0 {
        lemma_wave_prefix(wf, run_id, back, iteration, st, wave.drop_last(), a, b);
    }
}

proof fn lemma_waves_prefix(
    wf: Workflow,
    run_id: Seq<char>,
    back: Option<BackEdge>,
    iteration: u32,
    st: Progress,
    waves: Seq<Seq<Seq<char>>>,
    a: Seq<Seq<NodeEvent>>,
    b: Seq<Seq<NodeEvent>>,
    n: int,
)
    requires
        n <= a.len() <= b.len(),
        forall|i: int| 0 <= i < n ==> a[i] == b[i],
    ensures
        after_waves(wf, run_id, back, iteration, st, waves, a, n) == after_waves(
            wf,
            run_id,
            back,
            iteration,
            st,
            waves,
            b,
            n,
        ),
    decreases n,
{
    if n > 0 {
        lemma_waves_prefix(wf, run_id, back, iteration, st, waves, a, b, n - 1);
    }
}

/// What follows a pass.
#[derive(Debug, Clone)]
pub enum LoopDecision {
    End,
    OutOfBudget,
    Again(String),
}

/// The values of a decision.
pub open spec fn decision_view(d: LoopDecision) -> NextPass {
    match d {
        LoopDecision::End => NextPass::End,
        LoopDecision::OutOfBudget => NextPass::OutOfBudget,
        LoopDecision::Again(t) => NextPass::Again(t@),
    }
}

/// Decides what follows a pass after which the body has run `iterations` times.
pub fn decide_next_pass(
    wf: &Workflow,
    back: &Option<WorkflowEdge>,
    st: &Ledger,
    iterations: u32,
) -> (d: LoopDecision)
    ensures
        decision_view(d) == next_pass(*wf, back_view(*back), st@, iterations),
{
    let settings = wf.exec_settings;
    match back {
        None => LoopDecision::End,
        Some(b) => {
            if !st.ran || settings.max_iterations == 0 || iterations >= settings.max_iterations {
                return LoopDecision::End;
            }
            if out_of_budget(wf, st.tokens) {
                return LoopDecision::OutOfBudget;
            }
            match last_text(&st.outputs, b.from.as_str()) {
                None => LoopDecision::End,
                Some(t) => {
                    if condition_passes(&b.condition, t.as_str()) {
                        LoopDecision::Again(owned(t.as_str()))
                    } else {
                        LoopDecision::End
                    }
                },
            }
        },
    }
}

proof fn lemma_one_more_event<R: NodeRunner>(
    runner: &R,
    stop: StopSignal,
    wf: Workflow,
    run_id: Seq<char>,
    waves: Seq<Seq<Seq<char>>>,
    back: Option<BackEdge>,
    evs: Seq<RunEvent>,
    ev: RunEvent,
)
    requires
        forall|k: int|
            0 <= k < evs.len() ==> #[trigger] event_answered(
                runner,
                stop,
                wf,
                run_id,
                waves,
                back,
                evs,
                k,
            ),
        event_answered(runner, stop, wf, run_id, waves, back, evs.push(ev), evs.len() as int),
    ensures
        forall|k: int|
            0 <= k < evs.push(ev).len() ==> #[trigger] event_answered(
                runner,
                stop,
                wf,
                run_id,
                waves,
                back,
                evs.push(ev),
                k,
            ),
{
    assert forall|k: int| 0 <= k < evs.push(ev).len() implies #[trigger] event_answered(
        runner,
        stop,
        wf,
        run_id,
        waves,
        back,
        evs.push(ev),
        k,
    ) by {
        if k < evs.len() {
            assert(evs.push(ev).take(k) =~= evs.take(k));
            assert(event_answered(runner, stop, wf, run_id, waves, back, evs, k));
        }
    }
}

/// Runs a workflow against a runner until it is done or the flag asks it to
/// stop. `max_parallel` is reserved: the nodes of a wave take their turns one
/// after another, in order.
pub fn execute<R: NodeRunner>(
    wf: &Workflow,
    runner: &R,
    run_id: String,
    max_parallel: usize,
    stop: &AtomicBool,
) -> (r: Result<ExecReport, String>)
    ensures
        match r {
            Ok(report) => !cyclic(*wf) && exists|asked: Seq<Asked>| #[trigger]
                is_run_of(*wf, runner, StopSignal::Flag(stop), run_id@, report, asked),
            Err(e) => cyclic(*wf) && e@ == CYCLE_ERROR@,
        },
{
    let mut turns = Turns::new(runner);
    execute_until(wf, &mut turns, run_id, StopSignal::Flag(stop))
}

/// The calls that a run made are what it asked, and the report is that of the
/// run.
pub open spec fn ran_with<R: NodeRunner>(
    wf: Workflow,
    runner: &R,
    stop: StopSignal,
    run_id: Seq<char>,
    r: ExecReport,
    calls: Seq<NodeCall>,
    asked: Seq<Asked>,
) -> bool {
    is_run_of(wf, runner, stop, run_id, r, asked) && are_asked(calls, asked)
}

/// Runs a workflow against a runner until it is done or the signal is up. The
/// runner gets the turns of the run, in order, and no others; a workflow with a
/// cycle gives it none.
pub fn execute_until<R: NodeRunner>(
    wf: &Workflow,
    turns: &mut Turns<R>,
    run_id: String,
    stop: StopSignal,
) -> (r: Result<ExecReport, String>)
    ensures
        final(turns).runner() == old(turns).runner(),
        old(turns)@.len() <= final(turns)@.len(),
        final(turns)@.take(old(turns)@.len() as int) == old(turns)@,
        match r {
            Ok(report) => !cyclic(*wf) && exists|asked: Seq<Asked>| #[trigger]
                ran_with(
                    *wf,
                    old(turns).runner(),
                    stop,
                    run_id@,
                    report,
                    final(turns)@.skip(old(turns)@.len() as int),
                    asked,
                ),
            Err(e) => cyclic(*wf) && e@ == CYCLE_ERROR@ && final(turns)@ == old(turns)@,
        },
{
    let ghost runner = turns.runner();
    let ghost calls = turns@;
    proof {
        assert(calls.take(calls.len() as int) =~= calls);
        lemma_in_place(calls, Seq::empty());
    }
    let dp = plan(wf)?;
    let back = dp.loop_back_edge;
    let ghost bv = back_view(only_loop_edge(*wf));
    assert(bv == back_view(back));
    let ghost ws = wave_texts(dp.waves@);
    let started = clock_now();
    let mut st = Ledger::new();
    let mut iterations: u32 = 0;
    let mut stopped = false;
    let ghost mut evs: Seq<RunEvent> = Seq::empty();
    let max_iterations = wf.exec_settings.max_iterations;
    loop
        invariant_except_break
            iterations == 0 || iterations < max_iterations,
            run_state(*wf, run_id@, ws, bv, evs) == (RunState {
                progress: st@,
                iterations,
                stopped,
                finished: false,
            }),
        invariant
            runner == old(turns).runner(),
            calls == old(turns)@,
            turns.runner() == runner,
            in_step(calls, Seq::empty(), turns@, st@.asked),
            max_iterations == wf.exec_settings.max_iterations,
            ws == wave_texts(dp.waves@),
            bv == back_view(back),
            forall|k: int| 0 <= k < evs.len() ==> event_fits(ws, #[trigger] evs[k]),
            forall|k: int|
                0 <= k < evs.len() ==> #[trigger] event_answered(
                    runner,
                    stop,
                    *wf,
                    run_id@,
                    ws,
                    bv,
                    evs,
                    k,
                ),
        ensures
            run_state(*wf, run_id@, ws, bv, evs) == (RunState {
                progress: st@,
                iterations,
                stopped,
                finished: true,
            }),
        decreases max_iterations - iterations,
    {
        let ghost before = evs;
        if stop.look() {
            stopped = true;
            proof {
                evs = evs.push(RunEvent::StopSeen);
                assert(evs.drop_last() =~= before);
                lemma_one_more_event(runner, stop, *wf, run_id@, ws, bv, before, RunEvent::StopSeen);
            }
            break;
        }
        let tokens_before = st.tokens;
        let ghost st0 = st@;
        let ghost made = turns@;
        run_pass(
            wf,
            &dp.waves,
            run_id.as_str(),
            &back,
            iterations,
            &mut st,
            turns,
            &stop,
        );
        proof {
            lemma_in_step(calls, Seq::empty(), made, st0.asked, turns@, st@.asked);
            let pass = choose|pass: Seq<Seq<NodeEvent>>| #[trigger]
                is_pass(*wf, ws, run_id@, bv, iterations, st0, st@, runner, stop, pass);
            evs = evs.push(RunEvent::Pass(pass));
            assert(evs.drop_last() =~= before);
            assert(evs.take(before.len() as int) =~= before);
            lemma_one_more_event(runner, stop, *wf, run_id@, ws, bv, before, RunEvent::Pass(pass));
        }
        iterations = iterations + 1;
        if out_of_budget(wf, st.tokens) && st.tokens > tokens_before {
            stopped = true;
        }
        match decide_next_pass(wf, &back, &st, iterations) {
            LoopDecision::End => {
                break;
            },
            LoopDecision::OutOfBudget => {
                stopped = true;
                break;
            },
            LoopDecision::Again(text) => {
                st.carry = Some(text);
            },
        }
    }
    let total_wall_ms = elapsed_ms(&started);
    let status = if stopped {
        WorkflowRunStatus::Stopped
    } else if st.any_error {
        WorkflowRunStatus::Partial
    } else {
        WorkflowRunStatus::Done
    };
    let report = ExecReport {
        run_id,
        status,
        node_results: st.results,
        total_wall_ms,
        tokens_used: st.tokens,
        iterations,
    };
    assert(reports(report, run_id@, run_state(*wf, run_id@, ws, bv, evs)));
    proof {
        let asked = st@.asked;
        assert(asked.skip(0) =~= asked);
        assert(is_run_of(*wf, runner, stop, run_id@, report, asked));
        assert(ran_with(
            *wf,
            runner,
            stop,
            run_id@,
            report,
            turns@.skip(calls.len() as int),
            asked,
        ));
    }
    Ok(report)
}

/// No edge of the workflow is conditional.
pub open spec fn unconditional(wf: Workflow) -> bool {
    forall|i: int| 0 <= i < wf.edges@.len() ==> (#[trigger] wf.edges@[i]).condition is None
}

/// A result at its place in a run: it is numbered from one, and a skipped node
/// is not an error, has no text, and stands only in a workflow with conditions.
pub open spec fn result_sound(wf: Workflow, r: ResultView, i: int) -> bool {
    &&& r.order_idx == plus(i as u64, 1)
    &&& r.skipped ==> !unconditional(wf) && r.ok && r.text.len() == 0 && r.gen_tokens == 0
    &&& r.ok ==> r.error.len() == 0
}

/// What every run keeps.
pub open spec fn progress_sound(wf: Workflow, st: Progress) -> bool {
    &&& forall|i: int|
        0 <= i < st.results.len() ==> result_sound(wf, #[trigger] st.results[i], i)
    &&& st.any_error <==> exists|i: int| 0 <= i < st.results.len() && !(#[trigger] st.results[i]).ok
}

proof fn lemma_pushed_sound(wf: Workflow, a: Progress, b: Progress, r: ResultView)
    requires
        progress_sound(wf, a),
        b.results == a.results.push(r),
        result_sound(wf, r, a.results.len() as int),
        b.any_error == (a.any_error || !r.ok),
    ensures
        progress_sound(wf, b),
{
    assert forall|i: int| 0 <= i < b.results.len() implies result_sound(
        wf,
        #[trigger] b.results[i],
        i,
    ) by {
        if i < a.results.len() {
            assert(b.results[i] == a.results[i]);
        }
    }
    if a.any_error {
        let i = choose|i: int| 0 <= i < a.results.len() && !(#[trigger] a.results[i]).ok;
        assert(b.results[i] == a.results[i]);
    }
    if !r.ok {
        assert(b.results[a.results.len() as int] == r);
    }
    if exists|i: int| 0 <= i < b.results.len() && !(#[trigger] b.results[i]).ok {
        let i = choose|i: int| 0 <= i < b.results.len() && !(#[trigger] b.results[i]).ok;
        if i < a.results.len() {
            assert(b.results[i] == a.results[i]);
        }
    }
}

proof fn lemma_node_sound(
    wf: Workflow,
    run_id: Seq<char>,
    back: Option<BackEdge>,
    iteration: u32,
    st: Progress,
    id: Seq<char>,
    ev: NodeEvent,
)
    requires
        progress_sound(wf, st),
    ensures
        progress_sound(wf, after_node(wf, run_id, back, iteration, st, id, ev)),
        after_node(wf, run_id, back, iteration, st, id, ev).tokens >= st.tokens,
{
    let b = after_node(wf, run_id, back, iteration, st, id, ev);
    if !budget_spent(wf, st.tokens) {
        let r = b.results.last();
        if turn_of(wf, run_id, back, iteration, st, id) is Skip {
            let i = choose|i: int| leads_to(wf, i, id);
            assert(leads_to(wf, i, id));
            assert(wf.edges@[i].condition is Some);
        }
        assert(b.results == st.results.push(r));
        lemma_pushed_sound(wf, st, b, r);
    }
}

proof fn lemma_wave_sound(
    wf: Workflow,
    run_id: Seq<char>,
    back: Option<BackEdge>,
    iteration: u32,
    st: Progress,
    wave: Seq<Seq<char>>,
    evs: Seq<NodeEvent>,
)
    requires
        progress_sound(wf, st),
    ensures
        progress_sound(wf, after_wave(wf, run_id, back, iteration, st, wave, evs)),
        after_wave(wf, run_id, back, iteration, st, wave, evs).tokens >= st.tokens,
    decreases wave.len(),
{
    if wave.len() > 0 {
        lemma_wave_sound(wf, run_id, back, iteration, st, wave.drop_last(), evs);
        lemma_node_sound(
            wf,
            run_id,
            back,
            iteration,
            after_wave(wf, run_id, back, iteration, st, wave.drop_last(), evs),
            wave.last(),
            evs[wave.len() - 1],
        );
    }
}

proof fn lemma_waves_sound(
    wf: Workflow,
    run_id: Seq<char>,
    back: Option<BackEdge>,
    iteration: u32,
    st: Progress,
    waves: Seq<Seq<Seq<char>>>,
    evs: Seq<Seq<NodeEvent>>,
    n: int,
)
    requires
        progress_sound(wf, st),
    ensures
        progress_sound(wf, after_waves(wf, run_id, back, iteration, st, waves, evs, n)),
        after_waves(wf, run_id, back, iteration, st, waves, evs, n).tokens >= st.tokens,
    decreases n,
{
    if n > 0 {
        lemma_waves_sound(wf, run_id, back, iteration, st, waves, evs, n - 1);
        lemma_wave_sound(
            wf,
            run_id,
            back,
            iteration,
            after_waves(wf, run_id, back, iteration, st, waves, evs, n - 1),
            waves[n - 1],
            evs[n - 1],
        );
    }
}

/// The most passes that a run can make.
pub open spec fn pass_limit(wf: Workflow, back: Option<BackEdge>) -> u32 {
    if back is None || wf.exec_settings.max_iterations == 0 {
        1
    } else {
        wf.exec_settings.max_iterations
    }
}

/// A run that has used up its token budget is marked as stopped.
pub open spec fn budget_kept(wf: Workflow, rs: RunState) -> bool {
    budget_spent(wf, rs.progress.tokens) ==> rs.stopped
}

proof fn lemma_run_sound(
    wf: Workflow,
    run_id: Seq<char>,
    waves: Seq<Seq<Seq<char>>>,
    back: Option<BackEdge>,
    evs: Seq<RunEvent>,
)
    ensures
        progress_sound(wf, run_state(wf, run_id, waves, back, evs).progress),
        run_state(wf, run_id, waves, back, evs).iterations <= pass_limit(wf, back),
        !run_state(wf, run_id, waves, back, evs).finished ==> run_state(
            wf,
            run_id,
            waves,
            back,
            evs,
        ).iterations < pass_limit(wf, back),
        budget_kept(wf, run_state(wf, run_id, waves, back, evs)),
    decreases evs.len(),
{
    if evs.len() > 0 {
        let rs = run_state(wf, run_id, waves, back, evs.drop_last());
        lemma_run_sound(wf, run_id, waves, back, evs.drop_last());
        if !rs.finished {
            if let RunEvent::Pass(e) = evs.last() {
                let start = Progress { ran: false, ..rs.progress };
                assert(start.results == rs.progress.results);
                assert(progress_sound(wf, start));
                let st = after_waves(
                    wf,
                    run_id,
                    back,
                    rs.iterations,
                    start,
                    waves,
                    e,
                    e.len() as int,
                );
                lemma_waves_sound(
                    wf,
                    run_id,
                    back,
                    rs.iterations,
                    start,
                    waves,
                    e,
                    e.len() as int,
                );
                let after = after_pass(wf, run_id, waves, back, rs, e);
                assert(after.progress.results == st.results);
                assert(after.progress.any_error == st.any_error);
                assert(progress_sound(wf, after.progress));
            }
        }
    }
}

proof fn lemma_report_sound<R: NodeRunner>(
    wf: Workflow,
    runner: &R,
    stop: StopSignal,
    run_id: Seq<char>,
    r: ExecReport,
    asked: Seq<Asked>,
)
    requires
        is_run_of(wf, runner, stop, run_id, r, asked),
    ensures
        exists|rs: RunState| #[trigger]
            reports(r, run_id, rs) && progress_sound(wf, rs.progress) && rs.iterations <= pass_limit(
                wf,
                back_view(only_loop_edge(wf)),
            ) && budget_kept(wf, rs),
{
    let back = back_view(only_loop_edge(wf));
    let (waves, evs) = choose|waves: Seq<Seq<Seq<char>>>, evs: Seq<RunEvent>|
        {
            &&& is_schedule(wf, waves)
            &&& forall|k: int| 0 <= k < evs.len() ==> event_fits(waves, #[trigger] evs[k])
            &&& forall|k: int|
                0 <= k < evs.len() ==> #[trigger] event_answered(
                    runner,
                    stop,
                    wf,
                    run_id,
                    waves,
                    back,
                    evs,
                    k,
                )
            &&& #[trigger] reports(r, run_id, run_state(wf, run_id, waves, back, evs))
        };
    lemma_run_sound(wf, run_id, waves, back, evs);
}

/// A workflow without conditions skips no node.
pub proof fn law_unconditional_never_skips<R: NodeRunner>(
    wf: Workflow,
    runner: &R,
    stop: StopSignal,
    run_id: Seq<char>,
    r: ExecReport,
    asked: Seq<Asked>,
)
    requires
        is_run_of(wf, runner, stop, run_id, r, asked),
        unconditional(wf),
    ensures
        forall|i: int| 0 <= i < r.node_results@.len() ==> !(#[trigger] r.node_results@[i]).skipped,
{
    lemma_report_sound(wf, runner, stop, run_id, r, asked);
    let rs = choose|rs: RunState| #[trigger]
        reports(r, run_id, rs) && progress_sound(wf, rs.progress) && rs.iterations <= pass_limit(
            wf,
            back_view(only_loop_edge(wf)),
        );
    assert forall|i: int| 0 <= i < r.node_results@.len() implies !(
    #[trigger] r.node_results@[i]).skipped by {
        assert(rs.progress.results[i] == r.node_results@[i]@);
    }
}

/// The body runs at most once where nothing loops, and else at most as often as
/// the settings allow.
pub proof fn law_passes_are_bounded<R: NodeRunner>(
    wf: Workflow,
    runner: &R,
    stop: StopSignal,
    run_id: Seq<char>,
    r: ExecReport,
    asked: Seq<Asked>,
)
    requires
        is_run_of(wf, runner, stop, run_id, r, asked),
    ensures
        r.iterations <= 1 || r.iterations <= wf.exec_settings.max_iterations,
        only_loop_edge(wf) is None ==> r.iterations <= 1,
{
    lemma_report_sound(wf, runner, stop, run_id, r, asked);
}

/// A run that used up its token budget ends as stopped.
pub proof fn law_spent_budget_stops<R: NodeRunner>(
    wf: Workflow,
    runner: &R,
    stop: StopSignal,
    run_id: Seq<char>,
    r: ExecReport,
    asked: Seq<Asked>,
)
    requires
        is_run_of(wf, runner, stop, run_id, r, asked),
        wf.exec_settings.budget_tokens > 0,
        r.tokens_used >= wf.exec_settings.budget_tokens,
    ensures
        r.status == WorkflowRunStatus::Stopped,
{
    lemma_report_sound(wf, runner, stop, run_id, r, asked);
}

/// The results of a run are numbered from one in the order in which they came,
/// and a skipped node produced nothing.
pub proof fn law_results_are_in_order<R: NodeRunner>(
    wf: Workflow,
    runner: &R,
    stop: StopSignal,
    run_id: Seq<char>,
    r: ExecReport,
    asked: Seq<Asked>,
)
    requires
        is_run_of(wf, runner, stop, run_id, r, asked),
    ensures
        forall|i: int|
            0 <= i < r.node_results@.len() ==> (#[trigger] r.node_results@[i]).order_idx == plus(
                i as u64,
                1,
            ),
        forall|i: int|
            0 <= i < r.node_results@.len() && (#[trigger] r.node_results@[i]).skipped
                ==> r.node_results@[i].ok && r.node_results@[i].text@.len() == 0
                && r.node_results@[i].gen_tokens == 0,
{
    lemma_report_sound(wf, runner, stop, run_id, r, asked);
    let rs = choose|rs: RunState| #[trigger]
        reports(r, run_id, rs) && progress_sound(wf, rs.progress) && rs.iterations <= pass_limit(
            wf,
            back_view(only_loop_edge(wf)),
        );
    assert forall|i: int| 0 <= i < r.node_results@.len() implies result_sound(
        wf,
        (#[trigger] r.node_results@[i])@,
        i,
    ) by {
        assert(rs.progress.results[i] == r.node_results@[i]@);
    }
}

/// A run that was not stopped is partial exactly where some node failed.
pub proof fn law_failure_makes_partial<R: NodeRunner>(
    wf: Workflow,
    runner: &R,
    stop: StopSignal,
    run_id: Seq<char>,
    r: ExecReport,
    asked: Seq<Asked>,
)
    requires
        is_run_of(wf, runner, stop, run_id, r, asked),
        r.status != WorkflowRunStatus::Stopped,
    ensures
        r.status == WorkflowRunStatus::Partial <==> exists|i: int|
            0 <= i < r.node_results@.len() && !(#[trigger] r.node_results@[i]).ok,
        r.status == WorkflowRunStatus::Partial || r.status == WorkflowRunStatus::Done,
{
    lemma_report_sound(wf, runner, stop, run_id, r, asked);
    let rs = choose|rs: RunState| #[trigger]
        reports(r, run_id, rs) && progress_sound(wf, rs.progress) && rs.iterations <= pass_limit(
            wf,
            back_view(only_loop_edge(wf)),
        );
    if rs.progress.any_error {
        let i = choose|i: int|
            0 <= i < rs.progress.results.len() && !(#[trigger] rs.progress.results[i]).ok;
        assert(rs.progress.results[i] == r.node_results@[i]@);
    }
    if exists|i: int| 0 <= i < r.node_results@.len() && !(#[trigger] r.node_results@[i]).ok {
        let i = choose|i: int| 0 <= i < r.node_results@.len() && !(#[trigger] r.node_results@[i]).ok;
        assert(rs.progress.results[i] == r.node_results@[i]@);
    }
}

/// Once the token budget is used up no node takes a turn any more.
pub proof fn law_spent_budget_runs_nothing(
    wf: Workflow,
    run_id: Seq<char>,
    back: Option<BackEdge>,
    iteration: u32,
    st: Progress,
    waves: Seq<Seq<Seq<char>>>,
    evs: Seq<Seq<NodeEvent>>,
    n: int,
)
    requires
        budget_spent(wf, st.tokens),
    ensures
        after_waves(wf, run_id, back, iteration, st, waves, evs, n) == st,
    decreases n,
{
    if n > 0 {
        law_spent_budget_runs_nothing(wf, run_id, back, iteration, st, waves, evs, n - 1);
        lemma_spent_wave(wf, run_id, back, iteration, st, waves[n - 1], evs[n - 1]);
    }
}

proof fn lemma_spent_wave(
    wf: Workflow,
    run_id: Seq<char>,
    back: Option<BackEdge>,
    iteration: u32,
    st: Progress,
    wave: Seq<Seq<char>>,
    evs: Seq<NodeEvent>,
)
    requires
        budget_spent(wf, st.tokens),
    ensures
        after_wave(wf, run_id, back, iteration, st, wave, evs) == st,
    decreases wave.len(),
{
    if wave.len() > 0 {
        lemma_spent_wave(wf, run_id, back, iteration, st, wave.drop_last(), evs);
    }
}

/// The nodes of a list of results, in order.
pub open spec fn ids_of(v: Seq<ResultView>) -> Seq<Seq<char>> {
    Seq::new(v.len(), |i: int| v[i].node_id)
}

/// The nodes of the first `n` waves, in order.
pub open spec fn wave_ids(waves: Seq<Seq<Seq<char>>>, n: int) -> Seq<Seq<char>>
    decreases n,
{
    if n <= 0 {
        Seq::empty()
    } else {
        wave_ids(waves, n - 1) + waves[n - 1]
    }
}

/// The list, so many times over.
pub open spec fn times(v: Seq<Seq<char>>, n: nat) -> Seq<Seq<char>>
    decreases n,
{
    if n == 0 {
        Seq::empty()
    } else {
        times(v, (n - 1) as nat) + v
    }
}

proof fn lemma_wave_ids(
    wf: Workflow,
    run_id: Seq<char>,
    back: Option<BackEdge>,
    iteration: u32,
    st: Progress,
    wave: Seq<Seq<char>>,
    evs: Seq<NodeEvent>,
)
    requires
        wf.exec_settings.budget_tokens == 0,
    ensures
        ids_of(after_wave(wf, run_id, back, iteration, st, wave, evs).results) == ids_of(st.results)
            + wave,
    decreases wave.len(),
{
    if wave.len() > 0 {
        let short = after_wave(wf, run_id, back, iteration, st, wave.drop_last(), evs);
        let full = after_wave(wf, run_id, back, iteration, st, wave, evs);
        lemma_wave_ids(wf, run_id, back, iteration, st, wave.drop_last(), evs);
        assert(full.results == short.results.push(full.results.last()));
        assert(full.results.last().node_id == wave.last());
        assert(ids_of(full.results) =~= ids_of(short.results).push(wave.last()));
        assert(ids_of(st.results) + wave.drop_last().push(wave.last()) =~= (ids_of(st.results)
            + wave.drop_last()).push(wave.last()));
        assert(wave.drop_last().push(wave.last()) =~= wave);
    } else {
        assert(ids_of(st.results) + wave =~= ids_of(st.results));
    }
}

proof fn lemma_waves_ids(
    wf: Workflow,
    run_id: Seq<char>,
    back: Option<BackEdge>,
    iteration: u32,
    st: Progress,
    waves: Seq<Seq<Seq<char>>>,
    evs: Seq<Seq<NodeEvent>>,
    n: int,
)
    requires
        wf.exec_settings.budget_tokens == 0,
    ensures
        ids_of(after_waves(wf, run_id, back, iteration, st, waves, evs, n).results) == ids_of(
            st.results,
        ) + wave_ids(waves, n),
    decreases n,
{
    if n > 0 {
        lemma_waves_ids(wf, run_id, back, iteration, st, waves, evs, n - 1);
        let short = after_waves(wf, run_id, back, iteration, st, waves, evs, n - 1);
        lemma_wave_ids(wf, run_id, back, iteration, short, waves[n - 1], evs[n - 1]);
        assert((ids_of(st.results) + wave_ids(waves, n - 1)) + waves[n - 1] =~= ids_of(st.results)
            + (wave_ids(waves, n - 1) + waves[n - 1]));
    } else {
        assert(ids_of(st.results) + wave_ids(waves, n) =~= ids_of(st.results));
    }
}

proof fn lemma_unstopped<R: NodeRunner>(
    wf: Workflow,
    runner: &R,
    stop: StopSignal,
    run_id: Seq<char>,
    waves: Seq<Seq<Seq<char>>>,
    back: Option<BackEdge>,
    evs: Seq<RunEvent>,
)
    requires
        wf.exec_settings.budget_tokens == 0,
        !stop.said(true),
        forall|k: int| 0 <= k < evs.len() ==> event_fits(waves, #[trigger] evs[k]),
        forall|k: int|
            0 <= k < evs.len() ==> #[trigger] event_answered(
                runner,
                stop,
                wf,
                run_id,
                waves,
                back,
                evs,
                k,
            ),
    ensures
        ({
            let rs = run_state(wf, run_id, waves, back, evs);
            &&& !rs.stopped
            &&& rs.finished ==> rs.iterations > 0
            &&& ids_of(rs.progress.results) == times(
                wave_ids(waves, waves.len() as int),
                rs.iterations as nat,
            )
        }),
    decreases evs.len(),
{
    if evs.len() > 0 {
        let n = evs.len() - 1;
        let short = evs.drop_last();
        assert forall|k: int| 0 <= k < short.len() implies #[trigger] event_answered(
            runner,
            stop,
            wf,
            run_id,
            waves,
            back,
            short,
            k,
        ) by {
            assert(event_answered(runner, stop, wf, run_id, waves, back, evs, k));
            assert(short.take(k) =~= evs.take(k));
        }
        assert forall|k: int| 0 <= k < short.len() implies event_fits(
            waves,
            #[trigger] short[k],
        ) by {
            assert(short[k] == evs[k]);
        }
        lemma_unstopped(wf, runner, stop, run_id, waves, back, short);
        lemma_run_sound(wf, run_id, waves, back, short);
        let rs = run_state(wf, run_id, waves, back, short);
        assert(event_answered(runner, stop, wf, run_id, waves, back, evs, n));
        assert(event_fits(waves, evs[n]));
        match evs[n] {
            RunEvent::StopSeen => {},
            RunEvent::Pass(pass) => {
                assert(pass.len() == waves.len());
                let start = Progress { ran: false, ..rs.progress };
                assert(start.results == rs.progress.results);
                lemma_waves_ids(
                    wf,
                    run_id,
                    back,
                    rs.iterations,
                    start,
                    waves,
                    pass,
                    pass.len() as int,
                );
            },
        }
    } else {
        assert(ids_of(fresh_run().progress.results) =~= Seq::<Seq<char>>::empty());
    }
}

/// A run that neither the signal nor a token budget stops ends otherwise than
/// stopped, after one pass at least; each pass gave every node of the schedule
/// its turn, in order.
pub proof fn law_unstopped_run_is_whole<R: NodeRunner>(
    wf: Workflow,
    runner: &R,
    stop: StopSignal,
    run_id: Seq<char>,
    r: ExecReport,
    asked: Seq<Asked>,
)
    requires
        is_run_of(wf, runner, stop, run_id, r, asked),
        !stop.said(true),
        wf.exec_settings.budget_tokens == 0,
    ensures
        r.status != WorkflowRunStatus::Stopped,
        r.iterations > 0,
        exists|waves: Seq<Seq<Seq<char>>>| #[trigger]
            is_schedule(wf, waves) && ids_of(result_views(r.node_results@)) == times(
                wave_ids(waves, waves.len() as int),
                r.iterations as nat,
            ),
{
    let back = back_view(only_loop_edge(wf));
    let (waves, evs) = choose|waves: Seq<Seq<Seq<char>>>, evs: Seq<RunEvent>|
        {
            &&& is_schedule(wf, waves)
            &&& forall|k: int| 0 <= k < evs.len() ==> event_fits(waves, #[trigger] evs[k])
            &&& forall|k: int|
                0 <= k < evs.len() ==> #[trigger] event_answered(
                    runner,
                    stop,
                    wf,
                    run_id,
                    waves,
                    back,
                    evs,
                    k,
                )
            &&& #[trigger] reports(r, run_id, run_state(wf, run_id, waves, back, evs))
        };
    lemma_unstopped(wf, runner, stop, run_id, waves, back, evs);
    assert(is_schedule(wf, waves));
}

/// A run that is asked to stop before it begins runs no node and ends stopped.
pub proof fn law_stop_before_start_runs_nothing<R: NodeRunner>(
    wf: Workflow,
    runner: &R,
    stop: StopSignal,
    run_id: Seq<char>,
    r: ExecReport,
    asked: Seq<Asked>,
)
    requires
        is_run_of(wf, runner, stop, run_id, r, asked),
        !stop.said(false),
    ensures
        r.status == WorkflowRunStatus::Stopped,
        r.node_results@.len() == 0,
        r.tokens_used == 0,
        r.iterations == 0,
{
    let back = back_view(only_loop_edge(wf));
    let (waves, evs) = choose|waves: Seq<Seq<Seq<char>>>, evs: Seq<RunEvent>|
        {
            &&& is_schedule(wf, waves)
            &&& forall|k: int| 0 <= k < evs.len() ==> event_fits(waves, #[trigger] evs[k])
            &&& forall|k: int|
                0 <= k < evs.len() ==> #[trigger] event_answered(
                    runner,
                    stop,
                    wf,
                    run_id,
                    waves,
                    back,
                    evs,
                    k,
                )
            &&& #[trigger] reports(r, run_id, run_state(wf, run_id, waves, back, evs))
        };
    assert(evs.len() > 0);
    assert(event_answered(runner, stop, wf, run_id, waves, back, evs, 0));
    assert(evs[0] == RunEvent::StopSeen);
    lemma_stopped_first(wf, run_id, waves, back, evs);
    assert(result_views(r.node_results@).len() == r.node_results@.len());
}

proof fn lemma_stopped_first(
    wf: Workflow,
    run_id: Seq<char>,
    waves: Seq<Seq<Seq<char>>>,
    back: Option<BackEdge>,
    evs: Seq<RunEvent>,
)
    requires
        evs.len() > 0,
        evs[0] == RunEvent::StopSeen,
    ensures
        run_state(wf, run_id, waves, back, evs) == (RunState {
            stopped: true,
            finished: true,
            ..fresh_run()
        }),
    decreases evs.len(),
{
    if evs.len() > 1 {
        lemma_stopped_first(wf, run_id, waves, back, evs.drop_last());
    } else {
        assert(run_state(wf, run_id, waves, back, evs.drop_last()) == fresh_run());
    }
}

} // verus!
