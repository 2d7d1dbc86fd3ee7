//! What a node is given in a pass, and what one pass hands to the next.
use vstd::prelude::*;

use crate::engines::workflow::{
    after_node, after_pass, after_wave, after_waves, back_view, deliver, event_answered, event_fits,
    gather_inputs, inputs_of, is_run_of, node_index, reports, routed_upto, run_state, task_of,
    turn_of, Asked, BackEdge, Delivery, ExecReport, Ledger, NodeEvent, NodeRunner, Progress,
    RunEvent, RunState, StopSignal,
};
use crate::text::trim;
use crate::workflow::{is_schedule, only_loop_edge, NodeKind, Workflow, WorkflowEdge};

verus! {

/// What reaches a node is what its edges deliver, and behind that, at the
/// target of the loop edge, what the last pass carried over. A node that
/// nothing reaches and nothing leads to gets the kickoff task, in the first
/// pass.
pub proof fn law_inputs_of_a_node(
    wf: &Workflow,
    run_id: &str,
    back: &Option<WorkflowEdge>,
    iteration: u32,
    st: &Ledger,
    id: &str,
    d: Delivery,
    plain: Delivery,
    task: Option<String>,
)
    requires
        call_ensures(gather_inputs, (wf, run_id, back, iteration, st, id), d),
        call_ensures(deliver, (wf, run_id, &st.outputs, id), plain),
        call_ensures(task_of, (wf,), task),
    ensures
        ({
            let n = plain.inputs@.len();
            let carries = back is Some && (back->0).to@ == id@ && st.carry is Some;
            let starts = !carries && n == 0 && !plain.incoming && iteration == 0 && task is Some
                && trim((task->0)@).len() > 0;
            &&& d.incoming == plain.incoming
            &&& d.gated == plain.gated
            &&& d.inputs@.len() == n + if carries || starts {
                1int
            } else {
                0
            }
            &&& forall|k: int|
                0 <= k < n ==> (#[trigger] d.inputs@[k]).text@ == plain.inputs@[k].text@
                    && d.inputs@[k].id@ == plain.inputs@[k].id@ && d.inputs@[k].node_run_id@
                    == plain.inputs@[k].node_run_id@
            &&& carries ==> d.inputs@.last().text@ == (st.carry->0)@ && d.inputs@.last().id@
                == "m-"@ + (back->0).from@
            &&& starts ==> d.inputs@.last().text@ == (task->0)@ && d.inputs@.last().id@
                == "m-input-task"@
        }),
{
    let routed = routed_upto(
        *wf,
        run_id@,
        crate::engines::workflow::last_texts(st.outputs@),
        id@,
        wf.edges@.len() as int,
    );
    let all = inputs_of(*wf, run_id@, back_view(*back), iteration, st@, id@);
    let n = plain.inputs@.len() as int;
    assert(routed.len() == n);
    assert(all.len() >= n);
    assert forall|k: int| 0 <= k < n implies (#[trigger] d.inputs@[k]).text@
        == plain.inputs@[k].text@ && d.inputs@[k].id@ == plain.inputs@[k].id@
        && d.inputs@[k].node_run_id@ == plain.inputs@[k].node_run_id@ by {
        assert(all[k] == routed[k]);
        assert(crate::engines::workflow::is_text_message(plain.inputs@[k], routed[k]));
    }
    if all.len() > n {
        assert(crate::engines::workflow::is_text_message(d.inputs@[n], all[n]));
    }
}

/// A person decides at the node.
pub open spec fn is_for_a_person(a: Asked) -> bool {
    a.node.kind == NodeKind::Human || a.node.role_id@ == "human"@
}

/// No engine was asked what a person decides.
pub open spec fn none_for_a_person(asked: Seq<Asked>) -> bool {
    forall|k: int| 0 <= k < asked.len() ==> !is_for_a_person(#[trigger] asked[k])
}

proof fn lemma_wave_asks(
    wf: Workflow,
    run_id: Seq<char>,
    back: Option<BackEdge>,
    iteration: u32,
    st: Progress,
    wave: Seq<Seq<char>>,
    evs: Seq<NodeEvent>,
)
    requires
        none_for_a_person(st.asked),
    ensures
        none_for_a_person(after_wave(wf, run_id, back, iteration, st, wave, evs).asked),
    decreases wave.len(),
{
    if wave.len() > 0 {
        lemma_wave_asks(wf, run_id, back, iteration, st, wave.drop_last(), evs);
        let mid = after_wave(wf, run_id, back, iteration, st, wave.drop_last(), evs);
        let t = turn_of(wf, run_id, back, iteration, mid, wave.last());
        let end = after_node(
            wf,
            run_id,
            back,
            iteration,
            mid,
            wave.last(),
            evs[wave.len() - 1],
        );
        assert forall|k: int| 0 <= k < end.asked.len() implies !is_for_a_person(
            #[trigger] end.asked[k],
        ) by {
            if k < mid.asked.len() {
                assert(end.asked[k] == mid.asked[k]);
            }
        }
    }
}

proof fn lemma_waves_ask(
    wf: Workflow,
    run_id: Seq<char>,
    back: Option<BackEdge>,
    iteration: u32,
    st: Progress,
    waves: Seq<Seq<Seq<char>>>,
    evs: Seq<Seq<NodeEvent>>,
    n: int,
)
    requires
        none_for_a_person(st.asked),
    ensures
        none_for_a_person(after_waves(wf, run_id, back, iteration, st, waves, evs, n).asked),
    decreases n,
{
    if n > 0 {
        lemma_waves_ask(wf, run_id, back, iteration, st, waves, evs, n - 1);
        lemma_wave_asks(
            wf,
            run_id,
            back,
            iteration,
            after_waves(wf, run_id, back, iteration, st, waves, evs, n - 1),
            waves[n - 1],
            evs[n - 1],
        );
    }
}

proof fn lemma_run_asks(
    wf: Workflow,
    run_id: Seq<char>,
    waves: Seq<Seq<Seq<char>>>,
    back: Option<BackEdge>,
    evs: Seq<RunEvent>,
)
    ensures
        none_for_a_person(run_state(wf, run_id, waves, back, evs).progress.asked),
    decreases evs.len(),
{
    if evs.len() > 0 {
        lemma_run_asks(wf, run_id, waves, back, evs.drop_last());
        let rs = run_state(wf, run_id, waves, back, evs.drop_last());
        match evs.last() {
            RunEvent::StopSeen => {},
            RunEvent::Pass(pass) => {
                let start = Progress { ran: false, ..rs.progress };
                lemma_waves_ask(
                    wf,
                    run_id,
                    back,
                    rs.iterations,
                    start,
                    waves,
                    pass,
                    pass.len() as int,
                );
            },
        }
    }
}

/// No engine is asked what a person decides.
pub proof fn law_persons_decide<R: NodeRunner>(
    wf: Workflow,
    runner: &R,
    stop: StopSignal,
    run_id: Seq<char>,
    r: ExecReport,
    asked: Seq<Asked>,
    k: int,
)
    requires
        is_run_of(wf, runner, stop, run_id, r, asked),
        0 <= k < asked.len(),
    ensures
        asked[k].node.kind != NodeKind::Human,
        asked[k].node.role_id@ != "human"@,
{
    let back = back_view(only_loop_edge(wf));
    let (waves, evs) = choose|waves: Seq<Seq<Seq<char>>>, evs: Seq<RunEvent>|
        {
            &&& is_schedule(wf, waves)
            &&& forall|k: int| 0 <= k < evs.len() ==> event_fits(waves, #[trigger] evs[k])
            &&& forall|k: int|
                0 <= k < evs.len() ==> #[trigger] event_answered(
                    runner,
                    stop,
                    wf,
                    run_id,
                    waves,
                    back,
                    evs,
                    k,
                )
            &&& run_state(wf, run_id, waves, back, evs).progress.asked == asked
            &&& #[trigger] reports(r, run_id, run_state(wf, run_id, waves, back, evs))
        };
    lemma_run_asks(wf, run_id, waves, back, evs);
    assert(!is_for_a_person(asked[k]));
}

/// A pass that another follows hands it the last text of the loop's source; a
/// pass is counted once, and the results of the one before stay.
pub proof fn law_pass_hands_on(
    wf: Workflow,
    run_id: Seq<char>,
    waves: Seq<Seq<Seq<char>>>,
    back: Option<BackEdge>,
    rs: RunState,
    evs: Seq<Seq<NodeEvent>>,
)
    requires
        rs.iterations < u32::MAX,
    ensures
        ({
            let next = after_pass(wf, run_id, waves, back, rs, evs);
            &&& next.iterations == rs.iterations + 1
            &&& !next.finished ==> back is Some && next.progress.outputs.dom().contains(
                (back->0).from,
            ) && next.progress.carry == Some(next.progress.outputs[(back->0).from])
            &&& rs.stopped ==> next.stopped
        }),
{
}

/// What the loop carries is taken by its target, once, and by no other node.
pub proof fn law_carry_is_taken_once(
    wf: Workflow,
    run_id: Seq<char>,
    back: Option<BackEdge>,
    iteration: u32,
    st: Progress,
    id: Seq<char>,
    ev: NodeEvent,
)
    requires
        !(wf.exec_settings.budget_tokens > 0 && st.tokens >= wf.exec_settings.budget_tokens),
        node_index(wf, id) is Some,
    ensures
        ({
            let next = after_node(wf, run_id, back, iteration, st, id, ev);
            &&& back is Some && (back->0).to == id ==> next.carry is None
            &&& back is None || (back->0).to != id ==> next.carry == st.carry
            &&& next.results.len() == st.results.len() + 1
            &&& forall|k: int|
                0 <= k < st.results.len() ==> #[trigger] next.results[k] == st.results[k]
            &&& next.results.last().node_id == id
        }),
{
}

} // verus!
