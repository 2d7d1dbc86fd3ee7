//! Workflow domain: roles bound to models, the graph between them, and the
//! schedule that runs it.
//!
//! A node is a role bound to a model. Forward edges order the nodes; at most
//! one loop edge leads back and makes the body run again. The schedule is a
//! list of waves: a node stands in the first wave before which all of its
//! predecessors ran.
use vstd::prelude::*;

use crate::text::{
    clone_opt, contains, has_prefix, has_text, opt_text, owned, same, str_contains, str_has_prefix,
    texts,
};
use vstd::string::{StrSliceExecFns, StringExecFns};

verus! {

/// A stable, model-agnostic job description.
#[derive(Debug, Clone, PartialEq)]
pub struct Role {
    pub id: String,
    pub name: String,
    pub description: String,
    pub system_prompt: String,
    pub instructions: String,
    pub input_contract: String,
    pub output_contract: String,
    pub tools: Vec<String>,
    pub inference: InferenceDefaults,
}

/// Inference defaults of a role. The two fractions are decimal numerals.
#[derive(Debug, Clone, PartialEq)]
pub struct InferenceDefaults {
    pub temperature: String,
    pub top_p: String,
    pub top_k: u32,
    pub ctx: u32,
    pub max_tokens: u32,
}

impl Default for InferenceDefaults {
    fn default() -> (r: Self)
        ensures
            r.temperature@ == "0.7"@,
            r.top_p@ == "0.8"@,
            r.top_k == 20,
            r.ctx == 32768,
            r.max_tokens == 8192,
    {
        InferenceDefaults {
            temperature: owned("0.7"),
            top_p: owned("0.8"),
            top_k: 20,
            ctx: 32768,
            max_tokens: 8192,
        }
    }
}

/// The assignment of a model to a role.
#[derive(Debug, Clone, PartialEq)]
pub struct ModelBinding {
    pub role_id: String,
    /// `alias@quant`, or a model id of the engine's own store.
    pub model_ref: String,
    /// `None` leaves the choice to the deck.
    pub engine: Option<String>,
    pub overrides_json: String,
    pub active: bool,
}

#[derive(Debug, Clone, Copy, PartialEq, Eq, Structural)]
pub enum NodeKind {
    /// One generation against a live slot.
    Stateless,
    /// A tool-using agent session.
    Agentic,
    /// A gate that waits for a person.
    Human,
}

/// Canvas position: two doubles by their bit patterns. Nothing here reads it.
#[derive(Debug, Clone, Copy, PartialEq, Eq, Structural)]
pub struct NodePos {
    pub x_bits: u64,
    pub y_bits: u64,
}

impl Default for NodePos {
    fn default() -> (r: Self)
        ensures
            r.x_bits == 0,
            r.y_bits == 0,
    {
        NodePos { x_bits: 0, y_bits: 0 }
    }
}

#[derive(Debug, Clone, Copy, PartialEq, Eq, Structural)]
pub struct NodeExec {
    pub timeout_s: u32,
    pub max_tokens: u32,
    pub max_retries: u32,
}

impl Default for NodeExec {
    fn default() -> (r: Self)
        ensures
            r.timeout_s == 0,
            r.max_tokens == 0,
            r.max_retries == 0,
    {
        NodeExec { timeout_s: 0, max_tokens: 0, max_retries: 0 }
    }
}

/// A canvas cell: a role bound to a model, with its execution overrides.
#[derive(Debug, Clone, PartialEq)]
pub struct WorkflowNode {
    pub id: String,
    pub role_id: String,
    pub binding: ModelBinding,
    pub kind: NodeKind,
    pub pos: NodePos,
    pub exec_overrides: NodeExec,
}

impl WorkflowNode {
    /// The short name of the node's kind.
    pub fn kind_label(&self) -> (r: &'static str)
        ensures
            r@ == match self.kind {
                NodeKind::Stateless => "stateless"@,
                NodeKind::Agentic => "agentic"@,
                NodeKind::Human => "human"@,
            },
    {
        match self.kind {
            NodeKind::Stateless => "stateless",
            NodeKind::Agentic => "agentic",
            NodeKind::Human => "human",
        }
    }
}

/// A directed connection `from → to`. A loop edge leads back to an earlier
/// node and orders nothing.
#[derive(Debug, Clone, PartialEq)]
pub struct WorkflowEdge {
    pub id: String,
    pub from: String,
    pub to: String,
    pub from_port: String,
    pub to_port: String,
    /// A predicate on the text that `from` produced; `None` always routes.
    pub condition: Option<String>,
    pub loop_edge: bool,
}

/// Execution budget and stop policy. Zero means: no limit for the two budgets,
/// no looping for `max_iterations`.
#[derive(Debug, Clone, Copy, PartialEq, Eq, Structural)]
pub struct ExecSettings {
    pub max_parallel: u32,
    pub global_retries: u32,
    pub budget_tokens: u64,
    pub budget_wall_s: u64,
    pub max_iterations: u32,
}

impl Default for ExecSettings {
    fn default() -> (r: Self)
        ensures
            r.max_parallel == 2,
            r.global_retries == 0,
            r.budget_tokens == 0,
            r.budget_wall_s == 0,
            r.max_iterations == 0,
    {
        ExecSettings {
            max_parallel: 2,
            global_retries: 0,
            budget_tokens: 0,
            budget_wall_s: 0,
            max_iterations: 0,
        }
    }
}

/// A versioned workflow document.
#[derive(Debug, Clone, PartialEq)]
pub struct Workflow {
    pub id: String,
    pub name: String,
    pub description: String,
    pub version: u32,
    pub nodes: Vec<WorkflowNode>,
    pub edges: Vec<WorkflowEdge>,
    pub exec_settings: ExecSettings,
    pub template: bool,
    /// Kickoff inputs by name, in order.
    pub inputs: Vec<(String, String)>,
}

#[derive(Debug, Clone, Copy, PartialEq, Eq, Structural)]
pub enum MessageKind {
    Text,
    Structured,
    FileRef,
    ArtifactRef,
}

/// The typed unit passed across an edge.
#[derive(Debug, Clone, PartialEq)]
pub struct Message {
    pub id: String,
    /// The run of the node that produced it.
    pub node_run_id: String,
    pub kind: MessageKind,
    pub text: String,
    /// A JSON document.
    pub structured: Option<String>,
    pub ref_path: Option<String>,
    /// JSON documents by name.
    pub meta: Vec<(String, String)>,
}

#[derive(Debug, Clone, Copy, PartialEq, Eq, Structural)]
pub enum WorkflowRunStatus {
    Queued,
    Running,
    Done,
    Partial,
    Stopped,
    Error,
}

#[derive(Debug, Clone, Copy, PartialEq, Eq, Structural)]
pub enum NodeRunStatus {
    Queued,
    Running,
    Done,
    Failed,
    Cancelled,
}

/// Edge `i` of the workflow exists and orders the nodes that it connects.
pub open spec fn forward(wf: Workflow, i: int) -> bool {
    0 <= i < wf.edges@.len() && !wf.edges@[i].loop_edge
}

/// Edge `i` ends where edge `j` starts.
pub open spec fn feeds(wf: Workflow, i: int, j: int) -> bool {
    wf.edges@[i].to@ == wf.edges@[j].from@
}

/// A closed walk: forward edges, each of which starts where the one before it
/// ended, the first where the last ended.
pub open spec fn closed_walk(wf: Workflow, c: Seq<int>) -> bool {
    &&& c.len() > 0
    &&& forall|k: int| 0 <= k < c.len() ==> forward(wf, #[trigger] c[k])
    &&& forall|k: int| 0 <= k < c.len() - 1 ==> feeds(wf, #[trigger] c[k], c[k + 1])
    &&& feeds(wf, c.last(), c[0])
}

/// The forward edges hold a cycle.
pub open spec fn cyclic(wf: Workflow) -> bool {
    exists|c: Seq<int>| closed_walk(wf, c)
}

/// Walks backward for ever inside a set of edges in which each has a feeder.
spec fn back_edge(wf: Workflow, a: spec_fn(int) -> bool, start: int, k: nat) -> int
    decreases k,
{
    if k == 0 {
        start
    } else {
        let e = back_edge(wf, a, start, (k - 1) as nat);
        choose|j: int| a(j) && feeds(wf, j, e)
    }
}

proof fn lemma_back_edge(wf: Workflow, a: spec_fn(int) -> bool, start: int, k: nat)
    requires
        a(start),
        forall|i: int| #[trigger] a(i) ==> exists|j: int| a(j) && feeds(wf, j, i),
    ensures
        a(back_edge(wf, a, start, k)),
        k > 0 ==> feeds(
            wf,
            back_edge(wf, a, start, k),
            back_edge(wf, a, start, (k - 1) as nat),
        ),
    decreases k,
{
    if k > 0 {
        lemma_back_edge(wf, a, start, (k - 1) as nat);
    }
}

/// A sequence longer than the range of its values repeats one.
proof fn lemma_repeat(w: Seq<int>, n: nat)
    requires
        w.len() == n + 1,
        forall|i: int| 0 <= i < w.len() ==> 0 <= #[trigger] w[i] < n,
    ensures
        exists|i: int, j: int| 0 <= i < j < w.len() && w[i] == w[j],
{
    if w.no_duplicates() {
        w.unique_seq_to_set();
        let range = vstd::set_lib::set_int_range(0, n as int);
        vstd::set_lib::lemma_int_range(0, n as int);
        assert(w.to_set().subset_of(range));
        vstd::set_lib::lemma_len_subset(w.to_set(), range);
        assert(false);
    }
    let (i, j) = choose|i: int, j: int|
        0 <= i < w.len() && 0 <= j < w.len() && i != j && w[i] == w[j];
    if i < j {
        assert(w[i] == w[j]);
    } else {
        assert(w[j] == w[i]);
    }
}

/// A set of forward edges in which every edge is fed by another holds a cycle.
proof fn lemma_fed_set_is_cyclic(wf: Workflow, a: spec_fn(int) -> bool, start: int)
    requires
        a(start),
        forall|i: int| #[trigger] a(i) ==> forward(wf, i),
        forall|i: int| #[trigger] a(i) ==> exists|j: int| a(j) && feeds(wf, j, i),
    ensures
        cyclic(wf),
{
    let n = wf.edges@.len();
    let w = Seq::new(n + 1, |k: int| back_edge(wf, a, start, k as nat));
    assert forall|k: int| 0 <= k < w.len() implies 0 <= #[trigger] w[k] < n by {
        lemma_back_edge(wf, a, start, k as nat);
    }
    lemma_repeat(w, n);
    let (i, j) = choose|i: int, j: int| 0 <= i < j < w.len() && w[i] == w[j];
    let c = Seq::new((j - i) as nat, |k: int| w[j - k]);
    assert forall|k: int| 0 <= k < c.len() implies forward(wf, #[trigger] c[k]) by {
        lemma_back_edge(wf, a, start, (j - k) as nat);
    }
    assert forall|k: int| 0 <= k < c.len() - 1 implies feeds(wf, #[trigger] c[k], c[k + 1]) by {
        lemma_back_edge(wf, a, start, (j - k) as nat);
    }
    assert(feeds(wf, c.last(), c[0])) by {
        lemma_back_edge(wf, a, start, (i + 1) as nat);
    }
    assert(closed_walk(wf, c));
}

/// Every closed walk uses edges that are still alive only.
spec fn cycles_alive(wf: Workflow, alive: Seq<bool>) -> bool {
    forall|c: Seq<int>, k: int|
        #![trigger closed_walk(wf, c), c[k]]
        closed_walk(wf, c) && 0 <= k < c.len() ==> alive[c[k]]
}

/// A live edge ends where edge `e` starts.
spec fn is_fed(wf: Workflow, alive: Seq<bool>, e: int) -> bool {
    exists|f: int| 0 <= f < alive.len() && #[trigger] alive[f] && feeds(wf, f, e)
}

/// Every live edge below `n` is fed.
spec fn all_fed(wf: Workflow, alive: Seq<bool>, n: int) -> bool {
    forall|e: int| 0 <= e < n && alive[e] ==> #[trigger] is_fed(wf, alive, e)
}

/// An edge that no live edge feeds lies on no cycle.
proof fn lemma_drop_unfed(wf: Workflow, alive: Seq<bool>, e: int)
    requires
        alive.len() == wf.edges@.len(),
        0 <= e < alive.len(),
        cycles_alive(wf, alive),
        !is_fed(wf, alive, e),
    ensures
        cycles_alive(wf, alive.update(e, false)),
{
    assert forall|c: Seq<int>, k: int|
        #![trigger closed_walk(wf, c), c[k]]
        closed_walk(wf, c) && 0 <= k < c.len() implies alive.update(e, false)[c[k]] by {
        assert(alive[c[k]]);
        assert(forward(wf, c[k]));
        if c[k] == e {
            if k > 0 {
                assert(alive[c[k - 1]]);
                assert(forward(wf, c[k - 1]));
                assert(feeds(wf, c[k - 1], c[k]));
            } else {
                let l = c.len() - 1;
                assert(alive[c[l]]);
                assert(forward(wf, c[l]));
                assert(feeds(wf, c.last(), c[0]));
            }
        }
    }
}

impl Workflow {
    /// Whether a live edge ends where edge `e` starts.
    fn fed(&self, alive: &Vec<bool>, e: usize) -> (r: bool)
        requires
            alive@.len() == self.edges@.len(),
            e < alive@.len(),
        ensures
            r == is_fed(*self, alive@, e as int),
    {
        let mut f: usize = 0;
        while f < alive.len()
            invariant
                alive@.len() == self.edges@.len(),
                e < alive@.len(),
                f <= alive@.len(),
                forall|g: int| 0 <= g < f && alive@[g] ==> !feeds(*self, g, e as int),
            decreases alive@.len() - f,
        {
            if alive[f] && same(self.edges[f].to.as_str(), self.edges[e].from.as_str()) {
                assert(feeds(*self, f as int, e as int));
                return true;
            }
            f = f + 1;
        }
        false
    }

    /// Whether the forward edges hold a cycle.
    pub fn has_cycle(&self) -> (r: bool)
        ensures
            r == cyclic(*self),
    {
        let n = self.edges.len();
        let mut alive: Vec<bool> = Vec::new();
        let mut i: usize = 0;
        while i < n
            invariant
                n == self.edges@.len(),
                i <= n,
                alive@.len() == i,
                forall|k: int| 0 <= k < i ==> alive@[k] == forward(*self, k),
            decreases n - i,
        {
            let live = !self.edges[i].loop_edge;
            alive.push(live);
            i = i + 1;
        }
        assert(cycles_alive(*self, alive@)) by {
            assert forall|c: Seq<int>, k: int|
                #![trigger closed_walk(*self, c), c[k]]
                closed_walk(*self, c) && 0 <= k < c.len() implies alive@[c[k]] by {
                assert(forward(*self, c[k]));
            }
        }
        // Drop edges that nothing live feeds, at most once each.
        loop
            invariant
                n == self.edges@.len(),
                alive@.len() == n,
                forall|k: int| 0 <= k < n && alive@[k] ==> forward(*self, k),
                cycles_alive(*self, alive@),
            ensures
                all_fed(*self, alive@, n as int),
            decreases live_count(alive@),
        {
            let mut dropped = false;
            let ghost start = alive@;
            let mut e: usize = 0;
            while e < n
                invariant
                    n == self.edges@.len(),
                    e <= n,
                    alive@.len() == n,
                    start.len() == n,
                    forall|k: int| 0 <= k < n && alive@[k] ==> forward(*self, k),
                    cycles_alive(*self, alive@),
                    !dropped ==> alive@ == start,
                    dropped ==> live_count(alive@) < live_count(start),
                    !dropped ==> all_fed(*self, alive@, e as int),
                decreases n - e,
            {
                if alive[e] && !self.fed(&alive, e) {
                    proof {
                        lemma_drop_unfed(*self, alive@, e as int);
                        lemma_live_count_drop(alive@, e as int);
                    }
                    alive.set(e, false);
                    dropped = true;
                }
                e = e + 1;
            }
            if !dropped {
                break;
            }
        }
        let mut k: usize = 0;
        while k < n
            invariant
                n == self.edges@.len(),
                k <= n,
                alive@.len() == n,
                forall|j: int| 0 <= j < k ==> !alive@[j],
                forall|j: int| 0 <= j < n && alive@[j] ==> forward(*self, j),
                cycles_alive(*self, alive@),
                all_fed(*self, alive@, n as int),
            decreases n - k,
        {
            if alive[k] {
                proof {
                    let live = alive@;
                    let a = |j: int| 0 <= j < n && live[j];
                    assert(a(k as int));
                    assert forall|j: int| #[trigger] a(j) implies exists|f: int|
                        a(f) && feeds(*self, f, j) by {
                        assert(is_fed(*self, live, j));
                        let f = choose|f: int|
                            0 <= f < live.len() && #[trigger] live[f] && feeds(*self, f, j);
                        assert(a(f) && feeds(*self, f, j));
                    }
                    lemma_fed_set_is_cyclic(*self, a, k as int);
                }
                return true;
            }
            k = k + 1;
        }
        assert(!cyclic(*self)) by {
            if cyclic(*self) {
                let c = choose|c: Seq<int>| closed_walk(*self, c);
                assert(forward(*self, c[0]));
                assert(alive@[c[0]]);
            }
        }
        false
    }
}

spec fn live_count(alive: Seq<bool>) -> nat
    decreases alive.len(),
{
    if alive.len() == 0 {
        0
    } else {
        live_count(alive.drop_last()) + if alive.last() {
            1nat
        } else {
            0
        }
    }
}

proof fn lemma_live_count_drop(alive: Seq<bool>, e: int)
    requires
        0 <= e < alive.len(),
        alive[e],
    ensures
        live_count(alive.update(e, false)) < live_count(alive),
    decreases alive.len(),
{
    let u = alive.update(e, false);
    if e == alive.len() - 1 {
        assert(u.drop_last() =~= alive.drop_last());
    } else {
        lemma_live_count_drop(alive.drop_last(), e);
        assert(u.drop_last() =~= alive.drop_last().update(e, false));
    }
}


/// The ids of the workflow's nodes, in order.
pub open spec fn node_ids(wf: Workflow) -> Seq<Seq<char>> {
    Seq::new(wf.nodes@.len(), |i: int| wf.nodes@[i].id@)
}

/// The sources of the first `n` edges that are forward edges into `id`.
pub open spec fn sources_upto(wf: Workflow, id: Seq<char>, n: int) -> Seq<Seq<char>>
    decreases n,
{
    if n <= 0 {
        Seq::empty()
    } else {
        let rest = sources_upto(wf, id, n - 1);
        if forward(wf, n - 1) && wf.edges@[n - 1].to@ == id {
            rest.push(wf.edges@[n - 1].from@)
        } else {
            rest
        }
    }
}

/// The sources of the forward edges into `id`, in the order of the edges.
pub open spec fn sources(wf: Workflow, id: Seq<char>) -> Seq<Seq<char>> {
    sources_upto(wf, id, wf.edges@.len() as int)
}

/// The targets of the first `n` edges that are forward edges out of `id`.
pub open spec fn targets_upto(wf: Workflow, id: Seq<char>, n: int) -> Seq<Seq<char>>
    decreases n,
{
    if n <= 0 {
        Seq::empty()
    } else {
        let rest = targets_upto(wf, id, n - 1);
        if forward(wf, n - 1) && wf.edges@[n - 1].from@ == id {
            rest.push(wf.edges@[n - 1].to@)
        } else {
            rest
        }
    }
}

/// The targets of the forward edges out of `id`, in the order of the edges.
pub open spec fn targets(wf: Workflow, id: Seq<char>) -> Seq<Seq<char>> {
    targets_upto(wf, id, wf.edges@.len() as int)
}

/// `id` stands in one of the first `k` waves.
pub open spec fn ran_before(waves: Seq<Seq<Seq<char>>>, k: int, id: Seq<char>) -> bool {
    exists|j: int| 0 <= j < k && (#[trigger] waves[j]).contains(id)
}

/// After `k` waves, `id` has not run and everything that it waits for has.
pub open spec fn ready(wf: Workflow, waves: Seq<Seq<Seq<char>>>, k: int, id: Seq<char>) -> bool {
    &&& !ran_before(waves, k, id)
    &&& forall|i: int|
        #![trigger wf.edges@[i]]
        forward(wf, i) && wf.edges@[i].to@ == id ==> ran_before(waves, k, wf.edges@[i].from@)
}

/// Those of the first `n` nodes that are ready after `k` waves.
pub open spec fn ready_upto(wf: Workflow, waves: Seq<Seq<Seq<char>>>, k: int, n: int) -> Seq<
    Seq<char>,
>
    decreases n,
{
    if n <= 0 {
        Seq::empty()
    } else {
        let rest = ready_upto(wf, waves, k, n - 1);
        if ready(wf, waves, k, wf.nodes@[n - 1].id@) {
            rest.push(wf.nodes@[n - 1].id@)
        } else {
            rest
        }
    }
}

/// The nodes that are ready after `k` waves, in the order of the nodes.
pub open spec fn ready_ids(wf: Workflow, waves: Seq<Seq<Seq<char>>>, k: int) -> Seq<Seq<char>> {
    ready_upto(wf, waves, k, wf.nodes@.len() as int)
}

/// The waves are the schedule of the workflow: each holds exactly the nodes
/// that are ready after the ones before it, and after the last none is.
pub open spec fn is_schedule(wf: Workflow, waves: Seq<Seq<Seq<char>>>) -> bool {
    &&& forall|k: int|
        0 <= k < waves.len() ==> #[trigger] waves[k] == ready_ids(wf, waves, k) && waves[k].len()
            > 0
    &&& ready_ids(wf, waves, waves.len() as int).len() == 0
}

/// Those of the first `n` nodes that stand in none of the waves.
pub open spec fn left_out_upto(wf: Workflow, waves: Seq<Seq<Seq<char>>>, n: int) -> Seq<Seq<char>>
    decreases n,
{
    if n <= 0 {
        Seq::empty()
    } else {
        let rest = left_out_upto(wf, waves, n - 1);
        if ran_before(waves, waves.len() as int, wf.nodes@[n - 1].id@) {
            rest
        } else {
            rest.push(wf.nodes@[n - 1].id@)
        }
    }
}

/// The ids that an edge list connects with one id.
#[derive(Debug, Clone, PartialEq)]
pub struct Links {
    pub id: String,
    pub peers: Vec<String>,
}

/// The views of a list of waves.
pub open spec fn wave_texts(waves: Seq<Vec<String>>) -> Seq<Seq<Seq<char>>> {
    Seq::new(waves.len(), |k: int| texts(waves[k]@))
}

/// A schedule of waves. All nodes of a wave may run at the same time.
#[derive(Debug, Clone)]
pub struct DryPlan {
    pub waves: Vec<Vec<String>>,
    /// The direct predecessors of each id.
    pub predecessors: Vec<Links>,
    /// The direct successors of each id.
    pub successors: Vec<Links>,
    /// Nodes that wait for something that is no node.
    pub unreachable: Vec<String>,
    /// The loop edge, where the workflow has exactly one.
    pub loop_back_edge: Option<WorkflowEdge>,
}

/// The first of the first `n` entries of a list whose id is `id`.
pub open spec fn link_index(links: Seq<Links>, id: Seq<char>) -> Option<int>
    decreases links.len(),
{
    if links.len() == 0 {
        None
    } else {
        match link_index(links.drop_last(), id) {
            Some(i) => Some(i),
            None => if links.last().id@ == id {
                Some(links.len() - 1)
            } else {
                None
            },
        }
    }
}

pub proof fn lemma_link_index(links: Seq<Links>, id: Seq<char>)
    ensures
        match link_index(links, id) {
            Some(i) => 0 <= i < links.len() && links[i].id@ == id,
            None => forall|i: int| 0 <= i < links.len() ==> (#[trigger] links[i]).id@ != id,
        },
    decreases links.len(),
{
    if links.len() > 0 {
        lemma_link_index(links.drop_last(), id);
        if link_index(links, id) is None {
            assert forall|i: int| 0 <= i < links.len() implies (#[trigger] links[i]).id@ != id by {
                if i < links.len() - 1 {
                    assert(links.drop_last()[i] == links[i]);
                }
            }
        }
    }
}

/// Which neighbours a list of links gives.
#[derive(Debug, Clone, Copy, PartialEq, Eq, Structural)]
pub enum Side {
    Sources,
    Targets,
}

/// The neighbours of `id` on one side.
pub open spec fn neighbours(wf: Workflow, side: Side, id: Seq<char>) -> Seq<Seq<char>> {
    match side {
        Side::Sources => sources(wf, id),
        Side::Targets => targets(wf, id),
    }
}

/// The end of an edge that a list of links is keyed by.
pub open spec fn key_end(e: WorkflowEdge, side: Side) -> Seq<char> {
    match side {
        Side::Sources => e.to@,
        Side::Targets => e.from@,
    }
}

/// The list holds, once each, every node and every id that a forward edge has
/// at its keyed end, with the neighbours of each.
pub open spec fn links_are(wf: Workflow, side: Side, links: Seq<Links>) -> bool {
    &&& forall|i: int|
        0 <= i < links.len() ==> texts((#[trigger] links[i]).peers@) == neighbours(
            wf,
            side,
            links[i].id@,
        )
    &&& forall|i: int, j: int|
        0 <= i < j < links.len() ==> (#[trigger] links[i]).id@ != (#[trigger] links[j]).id@
    &&& forall|i: int|
        0 <= i < wf.nodes@.len() ==> link_index(links, (#[trigger] wf.nodes@[i]).id@) is Some
    &&& forall|i: int|
        #![trigger wf.edges@[i]]
        forward(wf, i) ==> link_index(links, key_end(wf.edges@[i], side)) is Some
    &&& forall|i: int|
        0 <= i < links.len() ==> is_link_key(wf, side, (#[trigger] links[i]).id@)
}

/// `id` is a node or stands at the keyed end of a forward edge.
pub open spec fn is_link_key(wf: Workflow, side: Side, id: Seq<char>) -> bool {
    node_ids(wf).contains(id) || exists|i: int|
        forward(wf, i) && key_end(#[trigger] wf.edges@[i], side) == id
}

/// The plan is that of the workflow.
pub open spec fn is_plan(wf: Workflow, p: DryPlan) -> bool {
    let waves = wave_texts(p.waves@);
    &&& is_schedule(wf, waves)
    &&& links_are(wf, Side::Sources, p.predecessors@)
    &&& links_are(wf, Side::Targets, p.successors@)
    &&& texts(p.unreachable@) == left_out_upto(wf, waves, wf.nodes@.len() as int)
    &&& same_back_edge(p.loop_back_edge, only_loop_edge(wf))
}

/// How many of the first `n` edges are loop edges.
pub open spec fn loop_edges_upto(wf: Workflow, n: int) -> nat
    decreases n,
{
    if n <= 0 {
        0
    } else {
        loop_edges_upto(wf, n - 1) + if wf.edges@[n - 1].loop_edge {
            1nat
        } else {
            0
        }
    }
}

/// How many loop edges the workflow declares.
pub open spec fn loop_edges(wf: Workflow) -> nat {
    loop_edges_upto(wf, wf.edges@.len() as int)
}

/// The position of the loop edge, where there is exactly one.
pub open spec fn only_loop_edge(wf: Workflow) -> Option<WorkflowEdge> {
    if loop_edges(wf) == 1 {
        Some(wf.edges@[choose|i: int| 0 <= i < wf.edges@.len() && wf.edges@[i].loop_edge])
    } else {
        None
    }
}

/// Two edges hold the same values.
pub open spec fn same_edge(a: WorkflowEdge, b: WorkflowEdge) -> bool {
    &&& a.id@ == b.id@
    &&& a.from@ == b.from@
    &&& a.to@ == b.to@
    &&& a.from_port@ == b.from_port@
    &&& a.to_port@ == b.to_port@
    &&& opt_text(a.condition) == opt_text(b.condition)
    &&& a.loop_edge == b.loop_edge
}

pub open spec fn same_back_edge(a: Option<WorkflowEdge>, b: Option<WorkflowEdge>) -> bool {
    match (a, b) {
        (Some(x), Some(y)) => same_edge(x, y),
        (None, None) => true,
        _ => false,
    }
}

fn clone_edge(e: &WorkflowEdge) -> (r: WorkflowEdge)
    ensures
        same_edge(r, *e),
{
    WorkflowEdge {
        id: owned(e.id.as_str()),
        from: owned(e.from.as_str()),
        to: owned(e.to.as_str()),
        from_port: owned(e.from_port.as_str()),
        to_port: owned(e.to_port.as_str()),
        condition: clone_opt(&e.condition),
        loop_edge: e.loop_edge,
    }
}

proof fn lemma_loop_edges_mono(wf: Workflow, i: int, n: int)
    requires
        0 <= i <= n <= wf.edges@.len(),
    ensures
        loop_edges_upto(wf, i) <= loop_edges_upto(wf, n),
    decreases n - i,
{
    if i < n {
        lemma_loop_edges_mono(wf, i, n - 1);
    }
}

/// With one loop edge in all, two loop edges are the same.
proof fn lemma_only_loop_edge(wf: Workflow, i: int, j: int)
    requires
        loop_edges(wf) <= 1,
        0 <= i < wf.edges@.len(),
        0 <= j < wf.edges@.len(),
        wf.edges@[i].loop_edge,
        wf.edges@[j].loop_edge,
    ensures
        i == j,
{
    let n = wf.edges@.len() as int;
    if i < j {
        lemma_loop_edges_mono(wf, i + 1, j);
        lemma_loop_edges_mono(wf, j + 1, n);
    } else if j < i {
        lemma_loop_edges_mono(wf, j + 1, i);
        lemma_loop_edges_mono(wf, i + 1, n);
    }
}


proof fn lemma_ran_prefix(waves: Seq<Seq<Seq<char>>>, more: Seq<Seq<Seq<char>>>, k: int, id: Seq<char>)
    requires
        0 <= k <= waves.len() <= more.len(),
        forall|j: int| 0 <= j < k ==> waves[j] == more[j],
    ensures
        ran_before(waves, k, id) == ran_before(more, k, id),
{
    if ran_before(waves, k, id) {
        let j = choose|j: int| 0 <= j < k && (#[trigger] waves[j]).contains(id);
        assert(more[j].contains(id));
    }
    if ran_before(more, k, id) {
        let j = choose|j: int| 0 <= j < k && (#[trigger] more[j]).contains(id);
        assert(waves[j].contains(id));
    }
}

proof fn lemma_ready_prefix(
    wf: Workflow,
    waves: Seq<Seq<Seq<char>>>,
    more: Seq<Seq<Seq<char>>>,
    k: int,
    n: int,
)
    requires
        0 <= k <= waves.len() <= more.len(),
        forall|j: int| 0 <= j < k ==> waves[j] == more[j],
    ensures
        ready_upto(wf, waves, k, n) == ready_upto(wf, more, k, n),
    decreases n,
{
    if n > 0 {
        lemma_ready_prefix(wf, waves, more, k, n - 1);
        let id = wf.nodes@[n - 1].id@;
        lemma_ran_prefix(waves, more, k, id);
        assert forall|i: int|
            #![trigger wf.edges@[i]]
            ran_before(waves, k, wf.edges@[i].from@) == ran_before(
                more,
                k,
                wf.edges@[i].from@,
            ) by {
            lemma_ran_prefix(waves, more, k, wf.edges@[i].from@);
        }
    }
}

/// What is ready is a node that has not run.
pub proof fn lemma_ready_member(wf: Workflow, waves: Seq<Seq<Seq<char>>>, k: int, n: int, id: Seq<char>)
    requires
        n <= wf.nodes@.len(),
    ensures
        ready_upto(wf, waves, k, n).contains(id) <==> ready(wf, waves, k, id) && exists|i: int|
            0 <= i < n && (#[trigger] wf.nodes@[i]).id@ == id,
    decreases n,
{
    if n > 0 {
        let rest = ready_upto(wf, waves, k, n - 1);
        let here = wf.nodes@[n - 1].id@;
        lemma_ready_member(wf, waves, k, n - 1, id);
        let all = ready_upto(wf, waves, k, n);
        if rest.contains(id) {
            let j = choose|j: int| 0 <= j < rest.len() && rest[j] == id;
            assert(all[j] == id);
            let i = choose|i: int| 0 <= i < n - 1 && (#[trigger] wf.nodes@[i]).id@ == id;
            assert(wf.nodes@[i].id@ == id);
        }
        if all.contains(id) && !rest.contains(id) {
            let j = choose|j: int| 0 <= j < all.len() && all[j] == id;
            if j < rest.len() {
                assert(rest[j] == id);
            }
            assert(wf.nodes@[n - 1].id@ == id);
        }
        if ready(wf, waves, k, id) && here == id {
            assert(all.last() == id);
            assert(all.contains(id));
        }
    } else {
        assert(!ready_upto(wf, waves, k, n).contains(id));
    }
}

proof fn lemma_left_out_shrinks(wf: Workflow, waves: Seq<Seq<Seq<char>>>, w: Seq<Seq<char>>, n: int)
    requires
        0 <= n <= wf.nodes@.len(),
    ensures
        left_out_upto(wf, waves.push(w), n).len() <= left_out_upto(wf, waves, n).len(),
        (exists|i: int|
            0 <= i < n && w.contains((#[trigger] wf.nodes@[i]).id@) && !ran_before(
                waves,
                waves.len() as int,
                wf.nodes@[i].id@,
            )) ==> left_out_upto(wf, waves.push(w), n).len() < left_out_upto(wf, waves, n).len(),
    decreases n,
{
    if n > 0 {
        lemma_left_out_shrinks(wf, waves, w, n - 1);
        let id = wf.nodes@[n - 1].id@;
        let more = waves.push(w);
        if ran_before(waves, waves.len() as int, id) {
            let j = choose|j: int| 0 <= j < waves.len() && (#[trigger] waves[j]).contains(id);
            assert(more[j].contains(id));
            assert(ran_before(more, more.len() as int, id));
        }
        if w.contains(id) {
            assert(more[waves.len() as int].contains(id));
            assert(ran_before(more, more.len() as int, id));
        }
        if exists|i: int|
            0 <= i < n && w.contains((#[trigger] wf.nodes@[i]).id@) && !ran_before(
                waves,
                waves.len() as int,
                wf.nodes@[i].id@,
            ) {
            let i = choose|i: int|
                0 <= i < n && w.contains((#[trigger] wf.nodes@[i]).id@) && !ran_before(
                    waves,
                    waves.len() as int,
                    wf.nodes@[i].id@,
                );
            if i < n - 1 {
                assert(w.contains(wf.nodes@[i].id@));
            }
        }
    }
}

impl Workflow {
    fn neighbours_of(&self, side: Side, id: &str) -> (r: Vec<String>)
        ensures
            texts(r@) == neighbours(*self, side, id@),
    {
        let mut r: Vec<String> = Vec::new();
        let mut i: usize = 0;
        assert(texts(r@) =~= Seq::<Seq<char>>::empty());
        while i < self.edges.len()
            invariant
                i <= self.edges@.len(),
                texts(r@) == (match side {
                    Side::Sources => sources_upto(*self, id@, i as int),
                    Side::Targets => targets_upto(*self, id@, i as int),
                }),
            decreases self.edges@.len() - i,
        {
            let e = &self.edges[i];
            let ghost before = texts(r@);
            let (key, peer) = match side {
                Side::Sources => (e.to.as_str(), e.from.as_str()),
                Side::Targets => (e.from.as_str(), e.to.as_str()),
            };
            if !e.loop_edge && same(key, id) {
                r.push(owned(peer));
                assert(texts(r@) =~= before.push(peer@));
            }
            i = i + 1;
        }
        r
    }

    fn is_ready(&self, waves: &Vec<Vec<String>>, id: &str) -> (r: bool)
        ensures
            r == ready(*self, wave_texts(waves@), waves@.len() as int, id@),
    {
        if ran(waves, id) {
            return false;
        }
        let mut i: usize = 0;
        while i < self.edges.len()
            invariant
                i <= self.edges@.len(),
                forall|j: int|
                    #![trigger self.edges@[j]]
                    0 <= j < i && forward(*self, j) && self.edges@[j].to@ == id@ ==> ran_before(
                        wave_texts(waves@),
                        waves@.len() as int,
                        self.edges@[j].from@,
                    ),
            decreases self.edges@.len() - i,
        {
            let e = &self.edges[i];
            if !e.loop_edge && same(e.to.as_str(), id) && !ran(waves, e.from.as_str()) {
                assert(forward(*self, i as int));
                return false;
            }
            i = i + 1;
        }
        true
    }

    fn next_wave(&self, waves: &Vec<Vec<String>>) -> (r: Vec<String>)
        ensures
            texts(r@) == ready_ids(*self, wave_texts(waves@), waves@.len() as int),
    {
        let mut r: Vec<String> = Vec::new();
        let mut i: usize = 0;
        assert(texts(r@) =~= Seq::<Seq<char>>::empty());
        while i < self.nodes.len()
            invariant
                i <= self.nodes@.len(),
                texts(r@) == ready_upto(
                    *self,
                    wave_texts(waves@),
                    waves@.len() as int,
                    i as int,
                ),
            decreases self.nodes@.len() - i,
        {
            let ghost before = texts(r@);
            if self.is_ready(waves, self.nodes[i].id.as_str()) {
                r.push(owned(self.nodes[i].id.as_str()));
                assert(texts(r@) =~= before.push(self.nodes@[i as int].id@));
            }
            i = i + 1;
        }
        r
    }

    fn schedule(&self) -> (waves: Vec<Vec<String>>)
        ensures
            is_schedule(*self, wave_texts(waves@)),
    {
        let mut waves: Vec<Vec<String>> = Vec::new();
        let ghost n = self.nodes@.len() as int;
        loop
            invariant
                n == self.nodes@.len(),
                forall|k: int|
                    0 <= k < waves@.len() ==> #[trigger] wave_texts(waves@)[k] == ready_ids(
                        *self,
                        wave_texts(waves@),
                        k,
                    ) && wave_texts(waves@)[k].len() > 0,
            decreases left_out_upto(*self, wave_texts(waves@), n).len(),
        {
            let wave = self.next_wave(&waves);
            let ghost old_waves = wave_texts(waves@);
            let ghost w = texts(wave@);
            if wave.len() == 0 {
                return waves;
            }
            proof {
                let id = w[0];
                assert(w.contains(id));
                lemma_ready_member(*self, old_waves, old_waves.len() as int, n, id);
                lemma_left_out_shrinks(*self, old_waves, w, n);
            }
            waves.push(wave);
            let ghost new_waves = wave_texts(waves@);
            assert(new_waves =~= old_waves.push(w));
            assert forall|k: int| 0 <= k < waves@.len() implies #[trigger] new_waves[k]
                == ready_ids(*self, new_waves, k) && new_waves[k].len() > 0 by {
                lemma_ready_prefix(*self, old_waves, new_waves, k, n);
                if k < old_waves.len() {
                    assert(old_waves[k] == ready_ids(*self, old_waves, k));
                }
            }
        }
    }

    fn left_out(&self, waves: &Vec<Vec<String>>) -> (r: Vec<String>)
        ensures
            texts(r@) == left_out_upto(*self, wave_texts(waves@), self.nodes@.len() as int),
    {
        let mut r: Vec<String> = Vec::new();
        let mut i: usize = 0;
        assert(texts(r@) =~= Seq::<Seq<char>>::empty());
        while i < self.nodes.len()
            invariant
                i <= self.nodes@.len(),
                texts(r@) == left_out_upto(*self, wave_texts(waves@), i as int),
            decreases self.nodes@.len() - i,
        {
            let ghost before = texts(r@);
            if !ran(waves, self.nodes[i].id.as_str()) {
                r.push(owned(self.nodes[i].id.as_str()));
                assert(texts(r@) =~= before.push(self.nodes@[i as int].id@));
            }
            i = i + 1;
        }
        r
    }

    /// Adds an id and its neighbours, unless the list has the id.
    fn add_link(&self, side: Side, links: &mut Vec<Links>, id: &str)
        requires
            links_sound(*self, side, old(links)@),
            is_link_key(*self, side, id@),
        ensures
            links_sound(*self, side, final(links)@),
            link_index(final(links)@, id@) is Some,
            forall|x: Seq<char>|
                link_index(old(links)@, x) is Some ==> link_index(final(links)@, x) is Some,
    {
        match find_link(links, id) {
            Some(_) => {},
            None => {
                let ghost before = links@;
                let link = Links { id: owned(id), peers: self.neighbours_of(side, id) };
                links.push(link);
                proof {
                    assert(links@.drop_last() =~= before);
                    lemma_link_index(before, id@);
                }
            },
        }
    }

    fn links(&self, side: Side) -> (r: Vec<Links>)
        ensures
            links_are(*self, side, r@),
    {
        let mut r: Vec<Links> = Vec::new();
        let mut i: usize = 0;
        while i < self.nodes.len()
            invariant
                i <= self.nodes@.len(),
                links_sound(*self, side, r@),
                forall|j: int|
                    0 <= j < i ==> link_index(r@, (#[trigger] self.nodes@[j]).id@) is Some,
            decreases self.nodes@.len() - i,
        {
            assert(node_ids(*self)[i as int] == self.nodes@[i as int].id@);
            assert(node_ids(*self).contains(self.nodes@[i as int].id@));
            self.add_link(side, &mut r, self.nodes[i].id.as_str());
            i = i + 1;
        }
        let mut e: usize = 0;
        while e < self.edges.len()
            invariant
                e <= self.edges@.len(),
                links_sound(*self, side, r@),
                forall|j: int|
                    0 <= j < self.nodes@.len() ==> link_index(
                        r@,
                        (#[trigger] self.nodes@[j]).id@,
                    ) is Some,
                forall|j: int|
                    #![trigger self.edges@[j]]
                    0 <= j < e && forward(*self, j) ==> link_index(
                        r@,
                        key_end(self.edges@[j], side),
                    ) is Some,
            decreases self.edges@.len() - e,
        {
            let edge = &self.edges[e];
            if !edge.loop_edge {
                assert(forward(*self, e as int));
                let key = match side {
                    Side::Sources => edge.to.as_str(),
                    Side::Targets => edge.from.as_str(),
                };
                assert(key@ == key_end(self.edges@[e as int], side));
                self.add_link(side, &mut r, key);
            }
            e = e + 1;
        }
        r
    }

    /// The loop edge, where the workflow declares exactly one.
    pub fn loop_back_edge(&self) -> (r: Option<WorkflowEdge>)
        ensures
            same_back_edge(r, only_loop_edge(*self)),
    {
        let mut count: usize = 0;
        let mut at: usize = 0;
        let mut i: usize = 0;
        while i < self.edges.len()
            invariant
                i <= self.edges@.len(),
                count <= i,
                count == loop_edges_upto(*self, i as int),
                count > 0 ==> at < i && self.edges@[at as int].loop_edge,
            decreases self.edges@.len() - i,
        {
            if self.edges[i].loop_edge {
                count = count + 1;
                at = i;
            }
            i = i + 1;
        }
        if count == 1 {
            proof {
                let j = choose|i: int| 0 <= i < self.edges@.len() && self.edges@[i].loop_edge;
                assert(0 <= at < self.edges@.len() && self.edges@[at as int].loop_edge);
                lemma_only_loop_edge(*self, at as int, j);
            }
            Some(clone_edge(&self.edges[at]))
        } else {
            None
        }
    }

    /// Checks that the forward edges hold no cycle and that at most one edge
    /// loops back.
    pub fn validate(&self) -> (r: Result<(), String>)
        ensures
            r is Ok <==> !cyclic(*self) && loop_edges(*self) <= 1,
            match r {
                Ok(_) => true,
                Err(e) => e@ == if cyclic(*self) {
                    CYCLE_ERROR@
                } else {
                    MANY_LOOPS_ERROR@
                },
            },
    {
        if self.has_cycle() {
            return Err(owned(CYCLE_ERROR));
        }
        let mut count: usize = 0;
        let mut i: usize = 0;
        while i < self.edges.len()
            invariant
                i <= self.edges@.len(),
                count <= i,
                count == loop_edges_upto(*self, i as int),
            decreases self.edges@.len() - i,
        {
            if self.edges[i].loop_edge {
                count = count + 1;
            }
            i = i + 1;
        }
        if count > 1 {
            return Err(owned(MANY_LOOPS_ERROR));
        }
        Ok(())
    }
}

pub const CYCLE_ERROR: &'static str = "workflow has a cycle; V1 only supports DAGs";

pub const MANY_LOOPS_ERROR: &'static str = "workflow declares more than one loop edge";

/// What every prefix of a list of links keeps.
spec fn links_sound(wf: Workflow, side: Side, links: Seq<Links>) -> bool {
    &&& forall|i: int|
        0 <= i < links.len() ==> texts((#[trigger] links[i]).peers@) == neighbours(
            wf,
            side,
            links[i].id@,
        )
    &&& forall|i: int, j: int|
        0 <= i < j < links.len() ==> (#[trigger] links[i]).id@ != (#[trigger] links[j]).id@
    &&& forall|i: int|
        0 <= i < links.len() ==> is_link_key(wf, side, (#[trigger] links[i]).id@)
}

/// The position of the links of `id`.
fn find_link(links: &Vec<Links>, id: &str) -> (r: Option<usize>)
    ensures
        match r {
            Some(i) => link_index(links@, id@) == Some(i as int) && i < links@.len(),
            None => link_index(links@, id@) is None,
        },
{
    let mut i: usize = 0;
    assert(links@.take(0) =~= Seq::<Links>::empty());
    while i < links.len()
        invariant
            i <= links@.len(),
            link_index(links@.take(i as int), id@) is None,
        decreases links@.len() - i,
    {
        assert(links@.take(i + 1).drop_last() =~= links@.take(i as int));
        if same(links[i].id.as_str(), id) {
            proof {
                lemma_link_index_extends(links@, id@, i + 1);
            }
            return Some(i);
        }
        i = i + 1;
    }
    assert(links@.take(i as int) =~= links@);
    None
}

proof fn lemma_link_index_extends(links: Seq<Links>, id: Seq<char>, n: int)
    requires
        0 <= n <= links.len(),
        link_index(links.take(n), id) is Some,
    ensures
        link_index(links, id) == link_index(links.take(n), id),
    decreases links.len() - n,
{
    if n < links.len() {
        assert(links.take(n + 1).drop_last() =~= links.take(n));
        lemma_link_index_extends(links, id, n + 1);
    } else {
        assert(links.take(n) =~= links);
    }
}

/// Whether `id` stands in one of the waves.
fn ran(waves: &Vec<Vec<String>>, id: &str) -> (r: bool)
    ensures
        r == ran_before(wave_texts(waves@), waves@.len() as int, id@),
{
    let mut k: usize = 0;
    while k < waves.len()
        invariant
            k <= waves@.len(),
            forall|j: int| 0 <= j < k ==> !(#[trigger] wave_texts(waves@)[j]).contains(id@),
        decreases waves@.len() - k,
    {
        if has_text(&waves[k], id) {
            assert(wave_texts(waves@)[k as int].contains(id@));
            return true;
        }
        k = k + 1;
    }
    false
}

impl DryPlan {
    /// The direct predecessors of an id, in the order of the edges.
    pub fn predecessors_of(&self, id: &str) -> (r: Option<&Vec<String>>)
        ensures
            match (r, link_index(self.predecessors@, id@)) {
                (Some(v), Some(i)) => *v == self.predecessors@[i].peers,
                (None, None) => true,
                _ => false,
            },
    {
        match find_link(&self.predecessors, id) {
            Some(i) => Some(&self.predecessors[i].peers),
            None => None,
        }
    }

    /// The direct successors of an id, in the order of the edges.
    pub fn successors_of(&self, id: &str) -> (r: Option<&Vec<String>>)
        ensures
            match (r, link_index(self.successors@, id@)) {
                (Some(v), Some(i)) => *v == self.successors@[i].peers,
                (None, None) => true,
                _ => false,
            },
    {
        match find_link(&self.successors, id) {
            Some(i) => Some(&self.successors[i].peers),
            None => None,
        }
    }
}

/// The schedule of a workflow; refuses one whose forward edges hold a cycle.
pub fn plan(wf: &Workflow) -> (r: Result<DryPlan, String>)
    ensures
        match r {
            Ok(p) => !cyclic(*wf) && is_plan(*wf, p),
            Err(e) => cyclic(*wf) && e@ == CYCLE_ERROR@,
        },
{
    if wf.has_cycle() {
        return Err(owned(CYCLE_ERROR));
    }
    let waves = wf.schedule();
    let unreachable = wf.left_out(&waves);
    let predecessors = wf.links(Side::Sources);
    let successors = wf.links(Side::Targets);
    let loop_back_edge = wf.loop_back_edge();
    Ok(DryPlan { waves, predecessors, successors, unreachable, loop_back_edge })
}


/// In a schedule no node runs twice: an id stands in one wave at most.
pub proof fn law_waves_disjoint(
    wf: Workflow,
    waves: Seq<Seq<Seq<char>>>,
    j: int,
    k: int,
    id: Seq<char>,
)
    requires
        is_schedule(wf, waves),
        0 <= j < waves.len(),
        0 <= k < waves.len(),
        waves[j].contains(id),
        waves[k].contains(id),
    ensures
        j == k,
{
    let n = wf.nodes@.len() as int;
    if j < k {
        lemma_ready_member(wf, waves, k, n, id);
        assert(waves[k] == ready_ids(wf, waves, k));
        assert(waves[j].contains(id));
    }
    if k < j {
        lemma_ready_member(wf, waves, j, n, id);
        assert(waves[j] == ready_ids(wf, waves, j));
        assert(waves[k].contains(id));
    }
}

/// In a schedule everything that a node waits for ran in an earlier wave.
pub proof fn law_waves_respect_edges(
    wf: Workflow,
    waves: Seq<Seq<Seq<char>>>,
    e: int,
    k: int,
)
    requires
        is_schedule(wf, waves),
        forward(wf, e),
        0 <= k < waves.len(),
        waves[k].contains(wf.edges@[e].to@),
    ensures
        ran_before(waves, k, wf.edges@[e].from@),
{
    let n = wf.nodes@.len() as int;
    lemma_ready_member(wf, waves, k, n, wf.edges@[e].to@);
    assert(waves[k] == ready_ids(wf, waves, k));
}

/// Every forward edge starts at a node.
pub open spec fn sources_are_nodes(wf: Workflow) -> bool {
    forall|i: int|
        #![trigger wf.edges@[i]]
        forward(wf, i) ==> node_ids(wf).contains(wf.edges@[i].from@)
}

/// Without a cycle, and with every edge starting at a node, the schedule runs
/// every node.
pub proof fn law_waves_complete(wf: Workflow, waves: Seq<Seq<Seq<char>>>, id: Seq<char>)
    requires
        is_schedule(wf, waves),
        !cyclic(wf),
        sources_are_nodes(wf),
        node_ids(wf).contains(id),
    ensures
        ran_before(waves, waves.len() as int, id),
{
    let m = waves.len() as int;
    let n = wf.nodes@.len() as int;
    if !ran_before(waves, m, id) {
        let a = |i: int| forward(wf, i) && !ran_before(waves, m, wf.edges@[i].from@);
        let start = lemma_blocked(wf, waves, id);
        assert(a(start));
        assert forall|i: int| #[trigger] a(i) implies exists|j: int| a(j) && feeds(wf, j, i) by {
            let j = lemma_blocked(wf, waves, wf.edges@[i].from@);
            assert(a(j) && feeds(wf, j, i));
        }
        lemma_fed_set_is_cyclic(wf, a, start);
    }
}

/// A node that a finished schedule left out waits for an id that it left out.
proof fn lemma_blocked(wf: Workflow, waves: Seq<Seq<Seq<char>>>, id: Seq<char>) -> (i: int)
    requires
        is_schedule(wf, waves),
        node_ids(wf).contains(id),
        !ran_before(waves, waves.len() as int, id),
    ensures
        forward(wf, i),
        wf.edges@[i].to@ == id,
        !ran_before(waves, waves.len() as int, wf.edges@[i].from@),
{
    let m = waves.len() as int;
    let n = wf.nodes@.len() as int;
    let at = choose|k: int| 0 <= k < n && node_ids(wf)[k] == id;
    assert(wf.nodes@[at].id@ == id);
    lemma_ready_member(wf, waves, m, n, id);
    if ready(wf, waves, m, id) {
        assert(ready_ids(wf, waves, m).contains(id));
        assert(false);
    }
    choose|i: int|
        #![trigger wf.edges@[i]]
        forward(wf, i) && wf.edges@[i].to@ == id && !ran_before(waves, m, wf.edges@[i].from@)
}

proof fn lemma_left_out_empty(wf: Workflow, waves: Seq<Seq<Seq<char>>>, n: int)
    requires
        0 <= n <= wf.nodes@.len(),
        forall|i: int|
            0 <= i < wf.nodes@.len() ==> ran_before(
                waves,
                waves.len() as int,
                (#[trigger] wf.nodes@[i]).id@,
            ),
    ensures
        left_out_upto(wf, waves, n) == Seq::<Seq<char>>::empty(),
    decreases n,
{
    if n > 0 {
        lemma_left_out_empty(wf, waves, n - 1);
    }
}

/// Without a cycle, and with every edge starting at a node, a plan leaves no
/// node out.
pub proof fn law_plan_reaches_all(wf: Workflow, p: DryPlan)
    requires
        is_plan(wf, p),
        !cyclic(wf),
        sources_are_nodes(wf),
    ensures
        p.unreachable@.len() == 0,
{
    let waves = wave_texts(p.waves@);
    assert forall|i: int| 0 <= i < wf.nodes@.len() implies ran_before(
        waves,
        waves.len() as int,
        (#[trigger] wf.nodes@[i]).id@,
    ) by {
        assert(node_ids(wf)[i] == wf.nodes@[i].id@);
        law_waves_complete(wf, waves, wf.nodes@[i].id@);
    }
    lemma_left_out_empty(wf, waves, wf.nodes@.len() as int);
    assert(texts(p.unreachable@).len() == 0);
}

/// A test on the text that a node produced.
#[derive(Debug, Clone, PartialEq)]
pub enum EdgePredicate {
    Always,
    Contains(String),
    NotContains(String),
}

/// What a condition says: `contains:x`, `not_contains:x` or `always`.
#[verifier::ext_equal]
pub enum Condition {
    Always,
    Contains(Seq<char>),
    NotContains(Seq<char>),
}

/// The predicate that a condition writes down.
pub open spec fn condition_of(c: Seq<char>) -> Option<Condition> {
    if has_prefix(c, "contains:"@) {
        Some(Condition::Contains(c.skip("contains:"@.len() as int)))
    } else if has_prefix(c, "not_contains:"@) {
        Some(Condition::NotContains(c.skip("not_contains:"@.len() as int)))
    } else if c == "always"@ {
        Some(Condition::Always)
    } else {
        None
    }
}

/// Whether a condition holds of a text.
pub open spec fn condition_holds(c: Condition, text: Seq<char>) -> bool {
    match c {
        Condition::Always => true,
        Condition::Contains(x) => contains(text, x),
        Condition::NotContains(x) => !contains(text, x),
    }
}

impl View for EdgePredicate {
    type V = Condition;

    open spec fn view(&self) -> Condition {
        match self {
            EdgePredicate::Always => Condition::Always,
            EdgePredicate::Contains(x) => Condition::Contains(x@),
            EdgePredicate::NotContains(x) => Condition::NotContains(x@),
        }
    }
}

/// The part of a string after its first `n` characters.
fn rest_after(s: &str, n: usize) -> (r: String)
    requires
        n <= s@.len(),
    ensures
        r@ == s@.skip(n as int),
{
    let len = s.unicode_len();
    let r = owned(s.substring_char(n, len));
    assert(r@ =~= s@.skip(n as int));
    r
}

impl EdgePredicate {
    /// Reads a condition; an error names one that is none.
    pub fn parse(c: &str) -> (r: Result<EdgePredicate, String>)
        ensures
            match r {
                Ok(p) => condition_of(c@) == Some(p@),
                Err(e) => condition_of(c@) is None && e@ == "unknown edge predicate '"@ + c@
                    + "'"@,
            },
    {
        if str_has_prefix(c, "contains:") {
            let rest = rest_after(c, "contains:".unicode_len());
            return Ok(EdgePredicate::Contains(rest));
        }
        if str_has_prefix(c, "not_contains:") {
            let rest = rest_after(c, "not_contains:".unicode_len());
            return Ok(EdgePredicate::NotContains(rest));
        }
        if same(c, "always") {
            return Ok(EdgePredicate::Always);
        }
        let mut e = owned("unknown edge predicate '");
        e.append(c);
        e.append("'");
        Err(e)
    }

    /// Whether the predicate holds of a text.
    pub fn eval(&self, text: &str) -> (r: bool)
        ensures
            r == condition_holds(self@, text@),
    {
        match self {
            EdgePredicate::Always => true,
            EdgePredicate::Contains(x) => str_contains(text, x.as_str()),
            EdgePredicate::NotContains(x) => !str_contains(text, x.as_str()),
        }
    }
}

/// The roles of the coding-review template.
pub fn seed_coding_review_roles() -> (r: Vec<Role>)
    ensures
        r@.len() == 2,
        r@[0].id@ == "primary-developer"@,
        r@[0].name@ == "Primary Developer"@,
        r@[0].description@ == "writes the code / patch against the working tree"@,
        r@[0].system_prompt@ == "You are a senior software engineer. Given the task, write or modify code and produce a clear summary of what changed and any patch/diff."@,
        r@[0].instructions@ == "Work against the repository directory. Output a description of changes plus the diff when applicable."@,
        r@[0].input_contract@ == "task description"@,
        r@[0].output_contract@ == "text with change summary + optional patch"@,
        texts(r@[0].tools@) == seq!["read"@, "edit"@, "shell"@, "git"@],
        r@[0].inference.temperature@ == "0.7"@,
        r@[0].inference.top_p@ == "0.8"@,
        r@[0].inference.top_k == 20,
        r@[0].inference.ctx == 32768,
        r@[0].inference.max_tokens == 8192,
        r@[1].id@ == "architecture-critic"@,
        r@[1].name@ == "Architecture Critic"@,
        r@[1].description@ == "reviews the developer's output for design/architecture issues"@,
        r@[1].system_prompt@ == "You are a careful architecture critic. Read the proposed change and critique design, correctness, and maintainability. Be specific and constructive."@,
        r@[1].instructions@ == "Given the developer's summary/patch, list issues by severity and recommend concrete fixes."@,
        r@[1].input_contract@ == "developer output (summary + patch)"@,
        r@[1].output_contract@ == "structured critique (issues + recommendations)"@,
        texts(r@[1].tools@) == seq!["read"@],
        r@[1].inference.temperature@ == "0.3"@,
        r@[1].inference.top_p@ == "0.8"@,
        r@[1].inference.top_k == 20,
        r@[1].inference.ctx == 32768,
        r@[1].inference.max_tokens == 4096,
{
    let mut r: Vec<Role> = Vec::new();
    let mut dev_tools: Vec<String> = Vec::new();
    dev_tools.push(owned("read"));
    dev_tools.push(owned("edit"));
    dev_tools.push(owned("shell"));
    dev_tools.push(owned("git"));
    assert(texts(dev_tools@) =~= seq!["read"@, "edit"@, "shell"@, "git"@]);
    r.push(
        Role {
            id: owned("primary-developer"),
            name: owned("Primary Developer"),
            description: owned("writes the code / patch against the working tree"),
            system_prompt: owned(
                "You are a senior software engineer. Given the task, write or modify code and produce a clear summary of what changed and any patch/diff.",
            ),
            instructions: owned(
                "Work against the repository directory. Output a description of changes plus the diff when applicable.",
            ),
            input_contract: owned("task description"),
            output_contract: owned("text with change summary + optional patch"),
            tools: dev_tools,
            inference: InferenceDefaults::default(),
        },
    );
    let defaults = InferenceDefaults::default();
    let mut review_tools: Vec<String> = Vec::new();
    review_tools.push(owned("read"));
    assert(texts(review_tools@) =~= seq!["read"@]);
    r.push(
        Role {
            id: owned("architecture-critic"),
            name: owned("Architecture Critic"),
            description: owned(
                "reviews the developer's output for design/architecture issues",
            ),
            system_prompt: owned(
                "You are a careful architecture critic. Read the proposed change and critique design, correctness, and maintainability. Be specific and constructive.",
            ),
            instructions: owned(
                "Given the developer's summary/patch, list issues by severity and recommend concrete fixes.",
            ),
            input_contract: owned("developer output (summary + patch)"),
            output_contract: owned("structured critique (issues + recommendations)"),
            tools: review_tools,
            inference: InferenceDefaults {
                temperature: owned("0.3"),
                top_p: defaults.top_p,
                top_k: defaults.top_k,
                ctx: 32768,
                max_tokens: 4096,
            },
        },
    );
    r
}

/// The node binds a role to a model, with no overrides.
pub open spec fn is_plain_node(
    n: WorkflowNode,
    id: Seq<char>,
    role: Seq<char>,
    model: Seq<char>,
    engine: Seq<char>,
    kind: NodeKind,
    pos: NodePos,
) -> bool {
    &&& n.id@ == id
    &&& n.role_id@ == role
    &&& n.binding.role_id@ == role
    &&& n.binding.model_ref@ == model
    &&& opt_text(n.binding.engine) == Some(engine)
    &&& n.binding.overrides_json@ == ""@
    &&& n.binding.active
    &&& n.kind == kind
    &&& n.pos == pos
    &&& n.exec_overrides == (NodeExec { timeout_s: 0, max_tokens: 0, max_retries: 0 })
}

fn plain_node(
    id: &str,
    role: &str,
    model: &str,
    engine: &str,
    kind: NodeKind,
    pos: NodePos,
) -> (n: WorkflowNode)
    ensures
        is_plain_node(n, id@, role@, model@, engine@, kind, pos),
{
    WorkflowNode {
        id: owned(id),
        role_id: owned(role),
        binding: ModelBinding {
            role_id: owned(role),
            model_ref: owned(model),
            engine: Some(owned(engine)),
            overrides_json: owned(""),
            active: true,
        },
        kind,
        pos,
        exec_overrides: NodeExec::default(),
    }
}

/// Canvas positions of the template, as bit patterns of doubles.
pub const POS_40: u64 = 0x4044_0000_0000_0000;

pub const POS_120: u64 = 0x405e_0000_0000_0000;

pub const POS_320: u64 = 0x4074_0000_0000_0000;

/// The coding-review template: a developer writes, and what was written is
/// critiqued.
pub fn seed_coding_review() -> (wf: Workflow)
    ensures
        wf.id@ == "coding-review"@,
        wf.name@ == "Coding Review"@,
        wf.description@ == "LV1: developer writes, critic critiques. Linear DAG."@,
        wf.version == 1,
        wf.nodes@.len() == 2,
        is_plain_node(
            wf.nodes@[0],
            "n1"@,
            "primary-developer"@,
            "qwen3.8-27b@Q3_K_XL"@,
            "llamacpp"@,
            NodeKind::Agentic,
            NodePos { x_bits: POS_40, y_bits: POS_120 },
        ),
        is_plain_node(
            wf.nodes@[1],
            "n2"@,
            "architecture-critic"@,
            "qwen3.6-35b-a3b@NVFP4"@,
            "freetoken"@,
            NodeKind::Stateless,
            NodePos { x_bits: POS_40, y_bits: POS_320 },
        ),
        wf.edges@.len() == 1,
        wf.edges@[0].id@ == "e1"@,
        wf.edges@[0].from@ == "n1"@,
        wf.edges@[0].to@ == "n2"@,
        wf.edges@[0].from_port@ == "output"@,
        wf.edges@[0].to_port@ == "input"@,
        wf.edges@[0].condition is None,
        !wf.edges@[0].loop_edge,
        wf.exec_settings == (ExecSettings {
            max_parallel: 2,
            global_retries: 0,
            budget_tokens: 0,
            budget_wall_s: 0,
            max_iterations: 0,
        }),
        wf.template,
        wf.inputs@.len() == 0,
{
    let mut nodes: Vec<WorkflowNode> = Vec::new();
    nodes.push(
        plain_node(
            "n1",
            "primary-developer",
            "qwen3.8-27b@Q3_K_XL",
            "llamacpp",
            NodeKind::Agentic,
            NodePos { x_bits: POS_40, y_bits: POS_120 },
        ),
    );
    nodes.push(
        plain_node(
            "n2",
            "architecture-critic",
            "qwen3.6-35b-a3b@NVFP4",
            "freetoken",
            NodeKind::Stateless,
            NodePos { x_bits: POS_40, y_bits: POS_320 },
        ),
    );
    let mut edges: Vec<WorkflowEdge> = Vec::new();
    edges.push(
        WorkflowEdge {
            id: owned("e1"),
            from: owned("n1"),
            to: owned("n2"),
            from_port: owned("output"),
            to_port: owned("input"),
            condition: None,
            loop_edge: false,
        },
    );
    Workflow {
        id: owned("coding-review"),
        name: owned("Coding Review"),
        description: owned("LV1: developer writes, critic critiques. Linear DAG."),
        version: 1,
        nodes,
        edges,
        exec_settings: ExecSettings::default(),
        template: true,
        inputs: Vec::new(),
    }
}

} // verus!
