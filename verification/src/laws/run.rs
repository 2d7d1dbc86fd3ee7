//! Runs of a workflow: what reaches a node, what a run counts, and when it ends.
use vstd::prelude::*;

use crate::engines::workflow::{
    after_node, after_wave, after_waves, back_view, decide_next_pass, deliver, event_answered,
    event_fits, fresh_run, inputs_of, is_run_of, last_texts, leads_to, node_index, node_index_from,
    reports, result_views, routed_upto, routes, run_state, turn_of, Asked, BackEdge, Delivery,
    ExecReport, Ledger, LoopDecision, MessageView, NodeEvent, NodeRunner, Progress, ResultView,
    RunEvent, StopSignal,
};
use crate::workflow::{
    condition_holds, condition_of, is_schedule, loop_edges_upto, only_loop_edge, NodeKind, Workflow,
    WorkflowEdge,
};

verus! {

/// `x` stands somewhere in a text.
pub open spec fn stands_in(text: Seq<char>, x: Seq<char>) -> bool {
    exists|i: int|
        0 <= i && i + x.len() <= text.len() && #[trigger] text.subrange(i, i + x.len()) == x
}

/// The condition lets a text through: there is none, it says `always`, or what
/// it asks for stands in the text, or does not.
pub open spec fn lets_through(condition: Option<String>, text: Seq<char>) -> bool {
    match condition {
        None => true,
        Some(c) => {
            ||| c@ == "always"@
            ||| exists|x: Seq<char>| c@ == #[trigger] ("contains:"@ + x) && stands_in(text, x)
            ||| exists|x: Seq<char>| c@ == #[trigger] ("not_contains:"@ + x) && !stands_in(text, x)
        },
    }
}

proof fn lemma_stands_in(text: Seq<char>, x: Seq<char>)
    ensures
        stands_in(text, x) <==> crate::text::contains(text, x),
{
    if stands_in(text, x) {
        let i = choose|i: int|
            0 <= i && i + x.len() <= text.len() && #[trigger] text.subrange(i, i + x.len()) == x;
        assert(crate::text::occurs_at(text, x, i));
    }
    if crate::text::contains(text, x) {
        let i = choose|i: int| crate::text::occurs_at(text, x, i);
        assert(text.subrange(i, i + x.len()) == x);
    }
}

proof fn lemma_lets_through(condition: Option<String>, text: Seq<char>)
    ensures
        lets_through(condition, text) <==> match condition {
            None => true,
            Some(c) => match condition_of(c@) {
                Some(p) => condition_holds(p, text),
                None => false,
            },
        },
{
    if let Some(c) = condition {
        let s = c@;
        reveal_strlit("contains:");
        reveal_strlit("not_contains:");
        reveal_strlit("always");
        assert("contains:"@.len() == 9 && "not_contains:"@.len() == 13 && "always"@.len() == 6);
        assert("contains:"@[0] == 'c' && "not_contains:"@[0] == 'n' && "always"@[0] == 'a');
        let x = s.skip(9);
        let y = s.skip(13);
        lemma_stands_in(text, x);
        lemma_stands_in(text, y);
        if crate::text::has_prefix(s, "contains:"@) {
            assert(s.subrange(0, 9) == "contains:"@);
            assert(s =~= "contains:"@ + x);
            assert(s[0] == s.subrange(0, 9)[0]);
        }
        if crate::text::has_prefix(s, "not_contains:"@) {
            assert(s.subrange(0, 13) == "not_contains:"@);
            assert(s =~= "not_contains:"@ + y);
            assert(s[0] == s.subrange(0, 13)[0]);
        }
        assert forall|z: Seq<char>| s == #[trigger] ("contains:"@ + z) implies z == x
            && crate::text::has_prefix(s, "contains:"@) && s[0] == 'c' by {
            assert(s.subrange(0, 9) =~= "contains:"@);
            assert(x =~= z);
            assert(s[0] == "contains:"@[0]);
        }
        assert forall|z: Seq<char>| s == #[trigger] ("not_contains:"@ + z) implies z == y
            && crate::text::has_prefix(s, "not_contains:"@) && s[0] == 'n' by {
            assert(s.subrange(0, 13) =~= "not_contains:"@);
            assert(y =~= z);
            assert(s[0] == "not_contains:"@[0]);
        }
        if s == "always"@ {
            assert(s[0] == 'a');
        }
    }
}

/// The message that what a node said becomes.
pub open spec fn edge_message(run_id: Seq<char>, from: Seq<char>, text: Seq<char>) -> MessageView {
    MessageView { id: "m-"@ + from, node_run_id: run_id + "-"@ + from, text }
}

/// Edge `i` hands what its source said to `id`, given what was said.
pub open spec fn hands_over(
    wf: Workflow,
    said: spec_fn(Seq<char>) -> Option<Seq<char>>,
    id: Seq<char>,
    i: int,
) -> bool {
    &&& 0 <= i < wf.edges@.len()
    &&& !wf.edges@[i].loop_edge
    &&& wf.edges@[i].to@ == id
    &&& said(wf.edges@[i].from@) is Some
    &&& lets_through(wf.edges@[i].condition, said(wf.edges@[i].from@)->0)
}

/// `from` lists the edges that hand something to `id`: all of them, each once,
/// in their order.
pub open spec fn is_fan_in(
    wf: Workflow,
    said: spec_fn(Seq<char>) -> Option<Seq<char>>,
    id: Seq<char>,
    from: Seq<int>,
) -> bool {
    &&& forall|j: int, k: int| 0 <= j < k < from.len() ==> #[trigger] from[j] < #[trigger] from[k]
    &&& forall|k: int| 0 <= k < from.len() ==> hands_over(wf, said, id, #[trigger] from[k])
    &&& forall|i: int| #[trigger] hands_over(wf, said, id, i) ==> from.contains(i)
}

/// What was said according to a map.
pub open spec fn said_in(outputs: Map<Seq<char>, Seq<char>>) -> spec_fn(Seq<char>) -> Option<
    Seq<char>,
> {
    |id: Seq<char>|
        if outputs.dom().contains(id) {
            Some(outputs[id])
        } else {
            None
        }
}

proof fn lemma_routed(
    wf: Workflow,
    run_id: Seq<char>,
    outputs: Map<Seq<char>, Seq<char>>,
    id: Seq<char>,
    n: int,
) -> (from: Seq<int>)
    requires
        0 <= n <= wf.edges@.len(),
    ensures
        from.len() == routed_upto(wf, run_id, outputs, id, n).len(),
        forall|k: int|
            0 <= k < from.len() ==> 0 <= #[trigger] from[k] < n && hands_over(
                wf,
                said_in(outputs),
                id,
                from[k],
            ) && routed_upto(wf, run_id, outputs, id, n)[k] == edge_message(
                run_id,
                wf.edges@[from[k]].from@,
                outputs[wf.edges@[from[k]].from@],
            ),
        forall|j: int, k: int| 0 <= j < k < from.len() ==> #[trigger] from[j] < #[trigger] from[k],
        forall|i: int|
            0 <= i < n && #[trigger] hands_over(wf, said_in(outputs), id, i) ==> from.contains(i),
    decreases n,
{
    if n <= 0 {
        Seq::empty()
    } else {
        let before = lemma_routed(wf, run_id, outputs, id, n - 1);
        let e = wf.edges@[n - 1];
        if outputs.dom().contains(e.from@) {
            lemma_lets_through(e.condition, outputs[e.from@]);
        }
        assert(hands_over(wf, said_in(outputs), id, n - 1) <==> leads_to(wf, n - 1, id) && routes(
            wf,
            outputs,
            n - 1,
        ));
        if leads_to(wf, n - 1, id) && routes(wf, outputs, n - 1) {
            let from = before.push(n - 1);
            assert forall|i: int|
                0 <= i < n && #[trigger] hands_over(
                    wf,
                    said_in(outputs),
                    id,
                    i,
                ) implies from.contains(i) by {
                if i < n - 1 {
                    assert(before.contains(i));
                    let k = choose|k: int| 0 <= k < before.len() && before[k] == i;
                    assert(from[k] == i);
                } else {
                    assert(from[before.len() as int] == i);
                }
            }
            from
        } else {
            before
        }
    }
}

/// What a list of texts says of a name: the last that was put under it.
pub open spec fn last_under(v: Seq<(String, String)>, id: Seq<char>, n: int) -> Option<Seq<char>>
    decreases n,
{
    if n <= 0 {
        None
    } else if v[n - 1].0@ == id {
        Some(v[n - 1].1@)
    } else {
        last_under(v, id, n - 1)
    }
}

proof fn lemma_last_under(v: Seq<(String, String)>, id: Seq<char>)
    ensures
        said_in(last_texts(v))(id) == last_under(v, id, v.len() as int),
    decreases v.len(),
{
    if v.len() > 0 {
        lemma_last_under(v.drop_last(), id);
        lemma_last_prefix(v.drop_last(), v, id, v.len() - 1);
    }
}

proof fn lemma_last_prefix(a: Seq<(String, String)>, b: Seq<(String, String)>, id: Seq<char>, n: int)
    requires
        0 <= n <= a.len() <= b.len(),
        forall|i: int| 0 <= i < n ==> a[i] == b[i],
    ensures
        last_under(a, id, n) == last_under(b, id, n),
    decreases n,
{
    if n > 0 {
        lemma_last_prefix(a, b, id, n - 1);
    }
}

/// What is delivered to a node is one message for each edge into it whose source
/// said something that the edge's condition lets through: of all these edges, in
/// their order. The node is gated out exactly where there are edges into it, all
/// of them conditional, and none hands anything over.
pub proof fn law_all_predecessors_are_heard(
    wf: &Workflow,
    run_id: &str,
    outputs: &Vec<(String, String)>,
    id: &str,
    d: Delivery,
) -> (from: Seq<int>)
    requires
        call_ensures(deliver, (wf, run_id, outputs, id), d),
    ensures
        is_fan_in(
            *wf,
            |x: Seq<char>| last_under(outputs@, x, outputs@.len() as int),
            id@,
            from,
        ),
        d.inputs@.len() == from.len(),
        forall|k: int|
            0 <= k < from.len() ==> (#[trigger] d.inputs@[k]).id@ == "m-"@
                + wf.edges@[from[k]].from@ && d.inputs@[k].text@ == last_under(
                outputs@,
                wf.edges@[from[k]].from@,
                outputs@.len() as int,
            )->0,
        d.incoming <==> exists|i: int|
            0 <= i < wf.edges@.len() && !(#[trigger] wf.edges@[i]).loop_edge && wf.edges@[i].to@
                == id@,
        d.gated <==> d.incoming && from.len() == 0 && forall|i: int|
            0 <= i < wf.edges@.len() && !(#[trigger] wf.edges@[i]).loop_edge && wf.edges@[i].to@
                == id@ ==> wf.edges@[i].condition is Some,
{
    let outs = last_texts(outputs@);
    let n = wf.edges@.len() as int;
    let from = lemma_routed(*wf, run_id@, outs, id@, n);
    let said = |x: Seq<char>| last_under(outputs@, x, outputs@.len() as int);
    assert forall|x: Seq<char>| #[trigger] said(x) == said_in(outs)(x) by {
        lemma_last_under(outputs@, x);
    }
    assert forall|i: int| #[trigger] hands_over(*wf, said, id@, i) == hands_over(
        *wf,
        said_in(outs),
        id@,
        i,
    ) by {
        assert(said(wf.edges@[i].from@) == said_in(outs)(wf.edges@[i].from@));
    }
    assert forall|k: int| 0 <= k < from.len() implies hands_over(
        *wf,
        said,
        id@,
        #[trigger] from[k],
    ) by {
        assert(hands_over(*wf, said_in(outs), id@, from[k]));
        assert(hands_over(*wf, said, id@, from[k]) == hands_over(*wf, said_in(outs), id@, from[k]));
    }
    let ms = routed_upto(*wf, run_id@, outs, id@, n);
    assert forall|k: int| 0 <= k < from.len() implies (#[trigger] d.inputs@[k]).id@ == "m-"@
        + wf.edges@[from[k]].from@ && d.inputs@[k].text@ == said(wf.edges@[from[k]].from@)->0 by {
        assert(crate::engines::workflow::is_text_message(d.inputs@[k], ms[k]));
        assert(hands_over(*wf, said_in(outs), id@, from[k]));
        assert(said(wf.edges@[from[k]].from@) == said_in(outs)(wf.edges@[from[k]].from@));
    }
    if d.incoming {
        let i = choose|i: int| leads_to(*wf, i, id@);
        assert(!wf.edges@[i].loop_edge && wf.edges@[i].to@ == id@);
    }
    if exists|i: int|
        0 <= i < wf.edges@.len() && !(#[trigger] wf.edges@[i]).loop_edge && wf.edges@[i].to@
            == id@ {
        let i = choose|i: int|
            0 <= i < wf.edges@.len() && !(#[trigger] wf.edges@[i]).loop_edge && wf.edges@[i].to@
                == id@;
        assert(leads_to(*wf, i, id@));
    }
    assert forall|i: int| leads_to(*wf, i, id@) implies (routes(*wf, outs, i) <==> hands_over(
        *wf,
        said_in(outs),
        id@,
        i,
    )) by {
        let e = wf.edges@[i];
        if outs.dom().contains(e.from@) {
            lemma_lets_through(e.condition, outs[e.from@]);
        }
    }
    if d.gated {
        if from.len() > 0 {
            assert(hands_over(*wf, said_in(outs), id@, from[0]));
            assert(leads_to(*wf, from[0], id@));
        }
        assert forall|i: int|
            0 <= i < wf.edges@.len() && !(#[trigger] wf.edges@[i]).loop_edge && wf.edges@[i].to@
                == id@ implies wf.edges@[i].condition is Some by {
            assert(leads_to(*wf, i, id@));
        }
    }
    if d.incoming && from.len() == 0 && forall|i: int|
        0 <= i < wf.edges@.len() && !(#[trigger] wf.edges@[i]).loop_edge && wf.edges@[i].to@ == id@
            ==> wf.edges@[i].condition is Some {
        assert forall|i: int| leads_to(*wf, i, id@) implies wf.edges@[i].condition is Some
            && !routes(*wf, outs, i) by {
            assert(!wf.edges@[i].loop_edge);
            if routes(*wf, outs, i) {
                assert(hands_over(*wf, said_in(outs), id@, i));
                assert(from.contains(i));
            }
        }
    }
    from
}

/// The id names a node.
pub open spec fn is_node(wf: Workflow, id: Seq<char>) -> bool {
    exists|i: int| 0 <= i < wf.nodes@.len() && (#[trigger] wf.nodes@[i]).id@ == id
}

/// The result has a text that counts: its node is there and was not skipped.
pub open spec fn counts(wf: Workflow, r: ResultView) -> bool {
    !r.skipped && is_node(wf, r.node_id)
}

/// What a node said last among the first `n` results.
pub open spec fn said_by(wf: Workflow, results: Seq<ResultView>, n: int, id: Seq<char>) -> Option<
    Seq<char>,
>
    decreases n,
{
    if n <= 0 {
        None
    } else if results[n - 1].node_id == id && counts(wf, results[n - 1]) {
        Some(results[n - 1].text)
    } else {
        said_by(wf, results, n - 1, id)
    }
}

/// What was said among the first `n` results.
pub open spec fn said_before(wf: Workflow, results: Seq<ResultView>, n: int) -> spec_fn(
    Seq<char>,
) -> Option<Seq<char>> {
    |id: Seq<char>| said_by(wf, results, n, id)
}

/// The runner was given, for a node at its place in the run, the messages of the
/// edges in `from`, and at most one more: what the loop edge delivers to its
/// target, or the kickoff task for a node that nothing leads to.
pub open spec fn heard(
    wf: Workflow,
    run_id: Seq<char>,
    back: Option<BackEdge>,
    results: Seq<ResultView>,
    n: int,
    a: Asked,
    from: Seq<int>,
) -> bool {
    &&& is_fan_in(wf, said_before(wf, results, n), a.node.id@, from)
    &&& from.len() <= a.inputs.len() <= from.len() + 1
    &&& forall|k: int|
        0 <= k < from.len() ==> #[trigger] a.inputs[k] == edge_message(
            run_id,
            wf.edges@[from[k]].from@,
            said_by(wf, results, n, wf.edges@[from[k]].from@)->0,
        )
    &&& a.inputs.len() > from.len() ==> {
        ||| back is Some && back->0.to == a.node.id@ && a.inputs.last().id == "m-"@ + back->0.from
        ||| a.inputs.last().id == "m-input-task"@ && from.len() == 0 && forall|i: int|
            0 <= i < wf.edges@.len() && !(#[trigger] wf.edges@[i]).loop_edge ==> wf.edges@[i].to@
                != a.node.id@
    }
}

/// The result is what the runner answered.
pub open spec fn records(r: ResultView, a: Asked) -> bool {
    &&& r.node_id == a.node.id@
    &&& !r.skipped
    &&& match a.outcome {
        Ok(o) => r.ok && r.text == o.text && r.error.len() == 0 && r.tps == o.tps && r.ttft_ms
            == o.ttft_ms && r.gen_tokens == o.gen_tokens,
        Err(e) => !r.ok && r.error == e && r.text.len() == 0 && r.gen_tokens == 0,
    }
}

/// What an answer costs: the tokens that it reports, or a quarter of its bytes.
pub open spec fn cost(a: Asked) -> nat {
    match a.outcome {
        Ok(o) => if o.gen_tokens > 0 {
            o.gen_tokens as nat
        } else {
            (vstd::utf8::encode_utf8(o.text).len() as usize / 4) as nat
        },
        Err(_) => 0,
    }
}

/// What the first `n` answers cost.
pub open spec fn total_cost(asked: Seq<Asked>, n: int) -> nat
    decreases n,
{
    if n <= 0 {
        0
    } else {
        total_cost(asked, n - 1) + cost(asked[n - 1])
    }
}

/// The node at `id` is a gate for a person.
pub open spec fn is_gate(wf: Workflow, id: Seq<char>) -> bool {
    exists|i: int|
        0 <= i < wf.nodes@.len() && (#[trigger] wf.nodes@[i]).id@ == id && (wf.nodes@[i].kind
            == NodeKind::Human || wf.nodes@[i].role_id@ == "human"@)
}

/// Question `k` of a run has its place at `at[k]`.
pub open spec fn placed(
    wf: Workflow,
    run_id: Seq<char>,
    back: Option<BackEdge>,
    results: Seq<ResultView>,
    asked: Seq<Asked>,
    at: Seq<int>,
    k: int,
) -> bool {
    &&& 0 <= at[k] < results.len()
    &&& records(results[at[k]], asked[k])
    &&& wf.nodes@.contains(asked[k].node)
    &&& exists|from: Seq<int>| #[trigger] heard(wf, run_id, back, results, at[k], asked[k], from)
    &&& wf.exec_settings.budget_tokens > 0 ==> total_cost(asked, k) < wf.exec_settings.budget_tokens
}

/// The history of a run: each question has its place among the results, in
/// order; every other result is of a node that was skipped, is not there, or is
/// a gate for a person; what the answers cost adds up.
pub open spec fn history(
    wf: Workflow,
    run_id: Seq<char>,
    back: Option<BackEdge>,
    results: Seq<ResultView>,
    asked: Seq<Asked>,
    tokens: u64,
    at: Seq<int>,
) -> bool {
    &&& at.len() == asked.len()
    &&& forall|j: int, k: int| 0 <= j < k < at.len() ==> #[trigger] at[j] < #[trigger] at[k]
    &&& forall|k: int|
        0 <= k < at.len() ==> #[trigger] placed(wf, run_id, back, results, asked, at, k)
    &&& forall|i: int|
        0 <= i < results.len() && !at.contains(i) ==> (#[trigger] results[i]).skipped || !is_node(
            wf,
            results[i].node_id,
        ) || is_gate(wf, results[i].node_id)
    &&& tokens == if total_cost(asked, asked.len() as int) > u64::MAX {
        u64::MAX as nat
    } else {
        total_cost(asked, asked.len() as int)
    }
}

proof fn lemma_said_prefix(wf: Workflow, a: Seq<ResultView>, b: Seq<ResultView>, n: int, id: Seq<char>)
    requires
        0 <= n <= a.len(),
        n <= b.len(),
        forall|i: int| 0 <= i < n ==> a[i] == b[i],
    ensures
        said_by(wf, a, n, id) == said_by(wf, b, n, id),
    decreases n,
{
    if n > 0 {
        lemma_said_prefix(wf, a, b, n - 1, id);
    }
}

proof fn lemma_fan_in_same(
    wf: Workflow,
    f: spec_fn(Seq<char>) -> Option<Seq<char>>,
    g: spec_fn(Seq<char>) -> Option<Seq<char>>,
    id: Seq<char>,
    from: Seq<int>,
)
    requires
        is_fan_in(wf, f, id, from),
        forall|x: Seq<char>| #[trigger] f(x) == g(x),
    ensures
        is_fan_in(wf, g, id, from),
{
    assert forall|i: int| #[trigger] hands_over(wf, g, id, i) == hands_over(wf, f, id, i) by {
        assert(f(wf.edges@[i].from@) == g(wf.edges@[i].from@));
    }
    assert forall|k: int| 0 <= k < from.len() implies hands_over(
        wf,
        g,
        id,
        #[trigger] from[k],
    ) by {
        assert(hands_over(wf, f, id, from[k]));
        assert(hands_over(wf, g, id, from[k]) == hands_over(wf, f, id, from[k]));
    }
}

proof fn lemma_heard_grows(
    wf: Workflow,
    run_id: Seq<char>,
    back: Option<BackEdge>,
    a: Seq<ResultView>,
    b: Seq<ResultView>,
    n: int,
    q: Asked,
    from: Seq<int>,
)
    requires
        0 <= n <= a.len(),
        n <= b.len(),
        forall|i: int| 0 <= i < n ==> a[i] == b[i],
        heard(wf, run_id, back, a, n, q, from),
    ensures
        heard(wf, run_id, back, b, n, q, from),
{
    let f = said_before(wf, a, n);
    let g = said_before(wf, b, n);
    assert forall|x: Seq<char>| #[trigger] f(x) == g(x) by {
        lemma_said_prefix(wf, a, b, n, x);
    }
    lemma_fan_in_same(wf, f, g, q.node.id@, from);
    assert forall|k: int| 0 <= k < from.len() implies #[trigger] q.inputs[k] == edge_message(
        run_id,
        wf.edges@[from[k]].from@,
        said_by(wf, b, n, wf.edges@[from[k]].from@)->0,
    ) by {
        lemma_said_prefix(wf, a, b, n, wf.edges@[from[k]].from@);
    }
}

proof fn lemma_cost_prefix(a: Seq<Asked>, b: Seq<Asked>, n: int)
    requires
        0 <= n <= a.len(),
        n <= b.len(),
        forall|i: int| 0 <= i < n ==> a[i] == b[i],
    ensures
        total_cost(a, n) == total_cost(b, n),
    decreases n,
{
    if n > 0 {
        lemma_cost_prefix(a, b, n - 1);
    }
}

/// What a run keeps agrees with what its results say.
spec fn agrees(wf: Workflow, st: Progress) -> bool {
    forall|id: Seq<char>| #[trigger]
        said_in(st.outputs)(id) == said_by(wf, st.results, st.results.len() as int, id)
}

proof fn lemma_node_found(wf: Workflow, id: Seq<char>, i: int)
    requires
        0 <= i <= wf.nodes@.len(),
    ensures
        match node_index_from(wf, id, i) {
            Some(k) => i <= k < wf.nodes@.len() && wf.nodes@[k].id@ == id,
            None => forall|k: int| i <= k < wf.nodes@.len() ==> (#[trigger] wf.nodes@[k]).id@ != id,
        },
    decreases wf.nodes@.len() - i,
{
    if i < wf.nodes@.len() && wf.nodes@[i].id@ != id {
        lemma_node_found(wf, id, i + 1);
    }
}

proof fn lemma_is_node(wf: Workflow, id: Seq<char>)
    ensures
        is_node(wf, id) <==> node_index(wf, id) is Some,
        node_index(wf, id) is Some ==> 0 <= node_index(wf, id)->0 < wf.nodes@.len()
            && wf.nodes@[node_index(wf, id)->0].id@ == id,
{
    lemma_node_found(wf, id, 0);
}

proof fn lemma_pushed_history(
    wf: Workflow,
    run_id: Seq<char>,
    back: Option<BackEdge>,
    st: Progress,
    at: Seq<int>,
    r: ResultView,
    asked: Seq<Asked>,
)
    requires
        history(wf, run_id, back, st.results, st.asked, st.tokens, at),
        asked.len() >= st.asked.len(),
        forall|i: int| 0 <= i < st.asked.len() ==> asked[i] == st.asked[i],
    ensures
        forall|k: int|
            0 <= k < at.len() ==> #[trigger] placed(
                wf,
                run_id,
                back,
                st.results.push(r),
                asked,
                at,
                k,
            ),
{
    let more = st.results.push(r);
    assert forall|k: int| 0 <= k < at.len() implies #[trigger] placed(
        wf,
        run_id,
        back,
        more,
        asked,
        at,
        k,
    ) by {
        assert(placed(wf, run_id, back, st.results, st.asked, at, k));
        assert(more[at[k]] == st.results[at[k]]);
        let from = choose|from: Seq<int>| #[trigger]
            heard(wf, run_id, back, st.results, at[k], st.asked[k], from);
        lemma_heard_grows(wf, run_id, back, st.results, more, at[k], st.asked[k], from);
        lemma_cost_prefix(st.asked, asked, k);
    }
}

#[verifier::rlimit(60)]
proof fn lemma_node_history(
    wf: Workflow,
    run_id: Seq<char>,
    back: Option<BackEdge>,
    iteration: u32,
    st: Progress,
    id: Seq<char>,
    ev: NodeEvent,
    at: Seq<int>,
) -> (more: Seq<int>)
    requires
        history(wf, run_id, back, st.results, st.asked, st.tokens, at),
        agrees(wf, st),
    ensures
        ({
            let b = after_node(wf, run_id, back, iteration, st, id, ev);
            &&& history(wf, run_id, back, b.results, b.asked, b.tokens, more)
            &&& agrees(wf, b)
        }),
{
    let b = after_node(wf, run_id, back, iteration, st, id, ev);
    let n = st.results.len() as int;
    let turn = turn_of(wf, run_id, back, iteration, st, id);
    lemma_is_node(wf, id);
    if turn is Over {
        at
    } else {
        let r = b.results.last();
        assert(b.results == st.results.push(r));
        lemma_pushed_history(wf, run_id, back, st, at, r, b.asked);
        assert forall|x: Seq<char>| #[trigger]
            said_in(b.outputs)(x) == said_by(wf, b.results, n + 1, x) by {
            assert(said_in(st.outputs)(x) == said_by(wf, st.results, n, x));
            lemma_said_prefix(wf, st.results, b.results, n, x);
        }
        if turn is Run {
            let q = b.asked.last();
            let more = at.push(n);
            let ins = inputs_of(wf, run_id, back, iteration, st, id);
            let from = lemma_routed(wf, run_id, st.outputs, id, wf.edges@.len() as int);
            assert(said_before(wf, b.results, n)(id) == said_by(wf, b.results, n, id));
            let f = said_in(st.outputs);
            let g = said_before(wf, b.results, n);
            assert forall|x: Seq<char>| #[trigger] f(x) == g(x) by {
                assert(said_in(st.outputs)(x) == said_by(wf, st.results, n, x));
                lemma_said_prefix(wf, st.results, b.results, n, x);
            }
            assert(is_fan_in(wf, f, id, from));
            lemma_fan_in_same(wf, f, g, id, from);
            assert(q.node.id@ == id);
            assert(q.inputs == ins);
            let routed = routed_upto(wf, run_id, st.outputs, id, wf.edges@.len() as int);
            assert forall|k: int| 0 <= k < from.len() implies #[trigger] q.inputs[k]
                == edge_message(
                run_id,
                wf.edges@[from[k]].from@,
                said_by(wf, b.results, n, wf.edges@[from[k]].from@)->0,
            ) by {
                assert(ins[k] == routed[k]);
                assert(hands_over(wf, f, id, from[k]));
                assert(f(wf.edges@[from[k]].from@) == g(wf.edges@[from[k]].from@));
            }
            assert forall|i: int|
                0 <= i < wf.edges@.len() && !(#[trigger] wf.edges@[i]).loop_edge
                    && wf.edges@[i].to@ == id implies crate::engines::workflow::has_incoming(
                wf,
                id,
            ) by {
                assert(leads_to(wf, i, id));
            }
            assert(heard(wf, run_id, back, b.results, n, q, from));
            lemma_cost_prefix(st.asked, b.asked, st.asked.len() as int);
            assert(wf.nodes@.contains(q.node)) by {
                assert(wf.nodes@[node_index(wf, id)->0] == q.node);
            }
            assert(placed(wf, run_id, back, b.results, b.asked, more, at.len() as int));
            assert forall|k: int| 0 <= k < more.len() implies #[trigger] placed(
                wf,
                run_id,
                back,
                b.results,
                b.asked,
                more,
                k,
            ) by {
                if k < at.len() {
                    assert(placed(wf, run_id, back, b.results, b.asked, at, k));
                }
            }
            assert forall|j: int, k: int| 0 <= j < k < more.len() implies #[trigger] more[j]
                < #[trigger] more[k] by {
                if k == at.len() {
                    assert(placed(wf, run_id, back, st.results, st.asked, at, j));
                }
            }
            assert forall|i: int| 0 <= i < b.results.len() && !more.contains(i) implies (
            #[trigger] b.results[i]).skipped || !is_node(wf, b.results[i].node_id) || is_gate(
                wf,
                b.results[i].node_id,
            ) by {
                if i == n {
                    assert(more[at.len() as int] == n);
                } else {
                    if at.contains(i) {
                        let k = choose|k: int| 0 <= k < at.len() && at[k] == i;
                        assert(more[k] == i);
                    }
                    assert(st.results[i] == b.results[i]);
                }
            }
            assert(total_cost(b.asked, b.asked.len() as int) == total_cost(
                st.asked,
                st.asked.len() as int,
            ) + cost(q));
            more
        } else {
            assert(b.asked == st.asked);
            assert forall|i: int| 0 <= i < b.results.len() && !at.contains(i) implies (
            #[trigger] b.results[i]).skipped || !is_node(wf, b.results[i].node_id) || is_gate(
                wf,
                b.results[i].node_id,
            ) by {
                if i < n {
                    assert(st.results[i] == b.results[i]);
                }
            }
            at
        }
    }
}

proof fn lemma_wave_history(
    wf: Workflow,
    run_id: Seq<char>,
    back: Option<BackEdge>,
    iteration: u32,
    st: Progress,
    wave: Seq<Seq<char>>,
    evs: Seq<NodeEvent>,
    at: Seq<int>,
) -> (more: Seq<int>)
    requires
        history(wf, run_id, back, st.results, st.asked, st.tokens, at),
        agrees(wf, st),
    ensures
        ({
            let b = after_wave(wf, run_id, back, iteration, st, wave, evs);
            &&& history(wf, run_id, back, b.results, b.asked, b.tokens, more)
            &&& agrees(wf, b)
        }),
    decreases wave.len(),
{
    if wave.len() == 0 {
        at
    } else {
        let mid = lemma_wave_history(wf, run_id, back, iteration, st, wave.drop_last(), evs, at);
        lemma_node_history(
            wf,
            run_id,
            back,
            iteration,
            after_wave(wf, run_id, back, iteration, st, wave.drop_last(), evs),
            wave.last(),
            evs[wave.len() - 1],
            mid,
        )
    }
}

proof fn lemma_waves_history(
    wf: Workflow,
    run_id: Seq<char>,
    back: Option<BackEdge>,
    iteration: u32,
    st: Progress,
    waves: Seq<Seq<Seq<char>>>,
    evs: Seq<Seq<NodeEvent>>,
    n: int,
    at: Seq<int>,
) -> (more: Seq<int>)
    requires
        history(wf, run_id, back, st.results, st.asked, st.tokens, at),
        agrees(wf, st),
    ensures
        ({
            let b = after_waves(wf, run_id, back, iteration, st, waves, evs, n);
            &&& history(wf, run_id, back, b.results, b.asked, b.tokens, more)
            &&& agrees(wf, b)
        }),
    decreases n,
{
    if n <= 0 {
        at
    } else {
        let mid = lemma_waves_history(wf, run_id, back, iteration, st, waves, evs, n - 1, at);
        lemma_wave_history(
            wf,
            run_id,
            back,
            iteration,
            after_waves(wf, run_id, back, iteration, st, waves, evs, n - 1),
            waves[n - 1],
            evs[n - 1],
            mid,
        )
    }
}

proof fn lemma_run_history(
    wf: Workflow,
    run_id: Seq<char>,
    waves: Seq<Seq<Seq<char>>>,
    back: Option<BackEdge>,
    evs: Seq<RunEvent>,
) -> (at: Seq<int>)
    ensures
        ({
            let b = run_state(wf, run_id, waves, back, evs).progress;
            &&& history(wf, run_id, back, b.results, b.asked, b.tokens, at)
            &&& agrees(wf, b)
        }),
    decreases evs.len(),
{
    if evs.len() == 0 {
        let b = fresh_run().progress;
        assert(agrees(wf, b));
        Seq::empty()
    } else {
        let at = lemma_run_history(wf, run_id, waves, back, evs.drop_last());
        let rs = run_state(wf, run_id, waves, back, evs.drop_last());
        if rs.finished {
            at
        } else {
            match evs.last() {
                RunEvent::StopSeen => at,
                RunEvent::Pass(pass) => {
                    let start = Progress { ran: false, ..rs.progress };
                    assert(agrees(wf, start));
                    let more = lemma_waves_history(
                        wf,
                        run_id,
                        back,
                        rs.iterations,
                        start,
                        waves,
                        pass,
                        pass.len() as int,
                        at,
                    );
                    let st = after_waves(
                        wf,
                        run_id,
                        back,
                        rs.iterations,
                        start,
                        waves,
                        pass,
                        pass.len() as int,
                    );
                    let b = run_state(wf, run_id, waves, back, evs).progress;
                    assert(b.results == st.results && b.asked == st.asked && b.tokens == st.tokens
                        && b.outputs == st.outputs);
                    assert(agrees(wf, b)) by {
                        assert forall|id: Seq<char>| #[trigger]
                            said_in(b.outputs)(id) == said_by(
                                wf,
                                b.results,
                                b.results.len() as int,
                                id,
                            ) by {
                            assert(said_in(st.outputs)(id) == said_by(
                                wf,
                                st.results,
                                st.results.len() as int,
                                id,
                            ));
                        }
                    }
                    more
                },
            }
        }
    }
}

/// In every run each node that the runner was asked to run was given the message
/// of every edge into it whose source had said something that the edge's
/// condition lets through; what the runner answered is the node's result; what
/// the answers cost adds up, and no node runs once the budget is used up.
pub proof fn law_runs_deliver_what_was_said<R: NodeRunner>(
    wf: Workflow,
    runner: &R,
    stop: StopSignal,
    run_id: Seq<char>,
    r: ExecReport,
    asked: Seq<Asked>,
) -> (at: Seq<int>)
    requires
        is_run_of(wf, runner, stop, run_id, r, asked),
    ensures
        history(
            wf,
            run_id,
            back_view(only_loop_edge(wf)),
            result_views(r.node_results@),
            asked,
            r.tokens_used,
            at,
        ),
{
    let back = back_view(only_loop_edge(wf));
    let (waves, evs) = choose|waves: Seq<Seq<Seq<char>>>, evs: Seq<RunEvent>|
        {
            &&& is_schedule(wf, waves)
            &&& forall|k: int| 0 <= k < evs.len() ==> event_fits(waves, #[trigger] evs[k])
            &&& forall|k: int|
                0 <= k < evs.len() ==> #[trigger] event_answered(
                    runner,
                    stop,
                    wf,
                    run_id,
                    waves,
                    back,
                    evs,
                    k,
                )
            &&& run_state(wf, run_id, waves, back, evs).progress.asked == asked
            &&& #[trigger] reports(r, run_id, run_state(wf, run_id, waves, back, evs))
        };
    lemma_run_history(wf, run_id, waves, back, evs)
}

/// The loop edge is an edge of the workflow that is marked as one, and the only
/// one.
pub proof fn law_loop_edge_is_the_only_one(wf: Workflow) -> (at: int)
    requires
        only_loop_edge(wf) is Some,
    ensures
        0 <= at < wf.edges@.len(),
        wf.edges@[at].loop_edge,
        wf.edges@[at] == only_loop_edge(wf)->0,
        forall|i: int| 0 <= i < wf.edges@.len() && (#[trigger] wf.edges@[i]).loop_edge ==> i == at,
{
    let at = lemma_some_loop_edge(wf, wf.edges@.len() as int);
    let c = choose|i: int| 0 <= i < wf.edges@.len() && wf.edges@[i].loop_edge;
    assert(wf.edges@[at].loop_edge);
    assert forall|i: int| 0 <= i < wf.edges@.len() && (#[trigger] wf.edges@[i]).loop_edge implies i
        == at by {}
    at
}

proof fn lemma_some_loop_edge(wf: Workflow, n: int) -> (at: int)
    requires
        0 <= n <= wf.edges@.len(),
        loop_edges_upto(wf, n) == 1,
    ensures
        0 <= at < n,
        wf.edges@[at].loop_edge,
        forall|i: int| 0 <= i < n && (#[trigger] wf.edges@[i]).loop_edge ==> i == at,
    decreases n,
{
    if wf.edges@[n - 1].loop_edge {
        lemma_no_loop_edge(wf, n - 1);
        n - 1
    } else {
        lemma_some_loop_edge(wf, n - 1)
    }
}

proof fn lemma_no_loop_edge(wf: Workflow, n: int)
    requires
        0 <= n <= wf.edges@.len(),
        loop_edges_upto(wf, n) == 0,
    ensures
        forall|i: int| 0 <= i < n ==> !(#[trigger] wf.edges@[i]).loop_edge,
    decreases n,
{
    if n > 0 {
        lemma_no_loop_edge(wf, n - 1);
    }
}

/// Every edge into `id`, and there is one, is conditional and hands nothing
/// over.
pub open spec fn shut_out(
    wf: Workflow,
    said: spec_fn(Seq<char>) -> Option<Seq<char>>,
    id: Seq<char>,
) -> bool {
    &&& exists|i: int|
        0 <= i < wf.edges@.len() && !(#[trigger] wf.edges@[i]).loop_edge && wf.edges@[i].to@ == id
    &&& forall|i: int|
        0 <= i < wf.edges@.len() && !(#[trigger] wf.edges@[i]).loop_edge && wf.edges@[i].to@ == id
            ==> wf.edges@[i].condition is Some && !hands_over(wf, said, id, i)
}

/// Result `i` is that of a node which was skipped exactly where it was shut out
/// by what was said before; a node that is not there is an error.
pub open spec fn fated(wf: Workflow, results: Seq<ResultView>, i: int) -> bool {
    &&& results[i].skipped <==> is_node(wf, results[i].node_id) && shut_out(
        wf,
        said_before(wf, results, i),
        results[i].node_id,
    )
    &&& !is_node(wf, results[i].node_id) ==> !results[i].ok
    &&& results[i].skipped || is_gate(wf, results[i].node_id) || results[i].ok
        || results[i].text.len() == 0
}

proof fn lemma_shut_out(
    wf: Workflow,
    outputs: Map<Seq<char>, Seq<char>>,
    said: spec_fn(Seq<char>) -> Option<Seq<char>>,
    id: Seq<char>,
)
    requires
        forall|x: Seq<char>| #[trigger] said(x) == said_in(outputs)(x),
    ensures
        shut_out(wf, said, id) <==> crate::engines::workflow::gated_out(wf, outputs, id),
{
    assert forall|i: int| leads_to(wf, i, id) implies (routes(wf, outputs, i) <==> hands_over(
        wf,
        said,
        id,
        i,
    )) by {
        let e = wf.edges@[i];
        assert(said(e.from@) == said_in(outputs)(e.from@));
        if outputs.dom().contains(e.from@) {
            lemma_lets_through(e.condition, outputs[e.from@]);
        }
    }
    if shut_out(wf, said, id) {
        let i = choose|i: int|
            0 <= i < wf.edges@.len() && !(#[trigger] wf.edges@[i]).loop_edge && wf.edges@[i].to@
                == id;
        assert(leads_to(wf, i, id));
        assert forall|i: int| leads_to(wf, i, id) implies wf.edges@[i].condition is Some && !routes(
            wf,
            outputs,
            i,
        ) by {
            assert(!wf.edges@[i].loop_edge);
        }
    }
    if crate::engines::workflow::gated_out(wf, outputs, id) {
        let i = choose|i: int| leads_to(wf, i, id);
        assert(!wf.edges@[i].loop_edge);
        assert forall|i: int|
            0 <= i < wf.edges@.len() && !(#[trigger] wf.edges@[i]).loop_edge && wf.edges@[i].to@
                == id implies wf.edges@[i].condition is Some && !hands_over(wf, said, id, i) by {
            assert(leads_to(wf, i, id));
        }
    }
}

proof fn lemma_shut_same(
    wf: Workflow,
    f: spec_fn(Seq<char>) -> Option<Seq<char>>,
    g: spec_fn(Seq<char>) -> Option<Seq<char>>,
    id: Seq<char>,
)
    requires
        forall|x: Seq<char>| #[trigger] f(x) == g(x),
    ensures
        shut_out(wf, f, id) == shut_out(wf, g, id),
{
    assert forall|i: int| #[trigger] hands_over(wf, g, id, i) == hands_over(wf, f, id, i) by {
        assert(f(wf.edges@[i].from@) == g(wf.edges@[i].from@));
    }
    if shut_out(wf, f, id) {
        assert forall|i: int|
            0 <= i < wf.edges@.len() && !(#[trigger] wf.edges@[i]).loop_edge && wf.edges@[i].to@
                == id implies wf.edges@[i].condition is Some && !hands_over(wf, g, id, i) by {
            assert(hands_over(wf, g, id, i) == hands_over(wf, f, id, i));
        }
    }
    if shut_out(wf, g, id) {
        assert forall|i: int|
            0 <= i < wf.edges@.len() && !(#[trigger] wf.edges@[i]).loop_edge && wf.edges@[i].to@
                == id implies wf.edges@[i].condition is Some && !hands_over(wf, f, id, i) by {
            assert(hands_over(wf, g, id, i) == hands_over(wf, f, id, i));
        }
    }
}

spec fn all_fated(wf: Workflow, results: Seq<ResultView>) -> bool {
    forall|i: int| 0 <= i < results.len() ==> #[trigger] fated(wf, results, i)
}

proof fn lemma_node_fated(
    wf: Workflow,
    run_id: Seq<char>,
    back: Option<BackEdge>,
    iteration: u32,
    st: Progress,
    id: Seq<char>,
    ev: NodeEvent,
)
    requires
        agrees(wf, st),
        all_fated(wf, st.results),
    ensures
        all_fated(wf, after_node(wf, run_id, back, iteration, st, id, ev).results),
{
    let b = after_node(wf, run_id, back, iteration, st, id, ev);
    let n = st.results.len() as int;
    lemma_is_node(wf, id);
    if !(turn_of(wf, run_id, back, iteration, st, id) is Over) {
        assert(b.results == st.results.push(b.results.last()));
        let g = said_before(wf, b.results, n);
        assert forall|x: Seq<char>| #[trigger] g(x) == said_in(st.outputs)(x) by {
            assert(said_in(st.outputs)(x) == said_by(wf, st.results, n, x));
            lemma_said_prefix(wf, st.results, b.results, n, x);
        }
        lemma_shut_out(wf, st.outputs, g, id);
        if turn_of(wf, run_id, back, iteration, st, id) is Gate {
            assert(is_gate(wf, id)) by {
                let k = node_index(wf, id)->0;
                assert(wf.nodes@[k].id@ == id);
            }
        }
        assert(fated(wf, b.results, n));
        assert forall|i: int| 0 <= i < b.results.len() implies #[trigger] fated(
            wf,
            b.results,
            i,
        ) by {
            if i < n {
                assert(fated(wf, st.results, i));
                let f = said_before(wf, st.results, i);
                let h = said_before(wf, b.results, i);
                assert forall|x: Seq<char>| #[trigger] f(x) == h(x) by {
                    lemma_said_prefix(wf, st.results, b.results, i, x);
                }
                lemma_shut_same(wf, f, h, st.results[i].node_id);
            }
        }
    }
}

proof fn lemma_wave_fated(
    wf: Workflow,
    run_id: Seq<char>,
    back: Option<BackEdge>,
    iteration: u32,
    st: Progress,
    wave: Seq<Seq<char>>,
    evs: Seq<NodeEvent>,
    at: Seq<int>,
)
    requires
        history(wf, run_id, back, st.results, st.asked, st.tokens, at),
        agrees(wf, st),
        all_fated(wf, st.results),
    ensures
        all_fated(wf, after_wave(wf, run_id, back, iteration, st, wave, evs).results),
    decreases wave.len(),
{
    if wave.len() > 0 {
        lemma_wave_fated(wf, run_id, back, iteration, st, wave.drop_last(), evs, at);
        lemma_wave_history(wf, run_id, back, iteration, st, wave.drop_last(), evs, at);
        lemma_node_fated(
            wf,
            run_id,
            back,
            iteration,
            after_wave(wf, run_id, back, iteration, st, wave.drop_last(), evs),
            wave.last(),
            evs[wave.len() - 1],
        );
    }
}

proof fn lemma_waves_fated(
    wf: Workflow,
    run_id: Seq<char>,
    back: Option<BackEdge>,
    iteration: u32,
    st: Progress,
    waves: Seq<Seq<Seq<char>>>,
    evs: Seq<Seq<NodeEvent>>,
    n: int,
    at: Seq<int>,
)
    requires
        history(wf, run_id, back, st.results, st.asked, st.tokens, at),
        agrees(wf, st),
        all_fated(wf, st.results),
    ensures
        all_fated(wf, after_waves(wf, run_id, back, iteration, st, waves, evs, n).results),
    decreases n,
{
    if n > 0 {
        lemma_waves_fated(wf, run_id, back, iteration, st, waves, evs, n - 1, at);
        let mid = lemma_waves_history(wf, run_id, back, iteration, st, waves, evs, n - 1, at);
        lemma_wave_fated(
            wf,
            run_id,
            back,
            iteration,
            after_waves(wf, run_id, back, iteration, st, waves, evs, n - 1),
            waves[n - 1],
            evs[n - 1],
            mid,
        );
    }
}

proof fn lemma_run_fated(
    wf: Workflow,
    run_id: Seq<char>,
    waves: Seq<Seq<Seq<char>>>,
    back: Option<BackEdge>,
    evs: Seq<RunEvent>,
)
    ensures
        all_fated(wf, run_state(wf, run_id, waves, back, evs).progress.results),
    decreases evs.len(),
{
    if evs.len() > 0 {
        lemma_run_fated(wf, run_id, waves, back, evs.drop_last());
        let at = lemma_run_history(wf, run_id, waves, back, evs.drop_last());
        let rs = run_state(wf, run_id, waves, back, evs.drop_last());
        if !rs.finished {
            if let RunEvent::Pass(pass) = evs.last() {
                let start = Progress { ran: false, ..rs.progress };
                assert(agrees(wf, start));
                lemma_waves_fated(
                    wf,
                    run_id,
                    back,
                    rs.iterations,
                    start,
                    waves,
                    pass,
                    pass.len() as int,
                    at,
                );
            }
        }
    }
}

/// In every run a node is skipped exactly where every edge into it, and there is
/// one, is conditional and hands nothing over of what was said before.
pub proof fn law_skipped_where_shut_out<R: NodeRunner>(
    wf: Workflow,
    runner: &R,
    stop: StopSignal,
    run_id: Seq<char>,
    r: ExecReport,
    asked: Seq<Asked>,
    i: int,
)
    requires
        is_run_of(wf, runner, stop, run_id, r, asked),
        0 <= i < r.node_results@.len(),
    ensures
        fated(wf, result_views(r.node_results@), i),
{
    let back = back_view(only_loop_edge(wf));
    let (waves, evs) = choose|waves: Seq<Seq<Seq<char>>>, evs: Seq<RunEvent>|
        {
            &&& is_schedule(wf, waves)
            &&& forall|k: int| 0 <= k < evs.len() ==> event_fits(waves, #[trigger] evs[k])
            &&& forall|k: int|
                0 <= k < evs.len() ==> #[trigger] event_answered(
                    runner,
                    stop,
                    wf,
                    run_id,
                    waves,
                    back,
                    evs,
                    k,
                )
            &&& run_state(wf, run_id, waves, back, evs).progress.asked == asked
            &&& #[trigger] reports(r, run_id, run_state(wf, run_id, waves, back, evs))
        };
    lemma_run_fated(wf, run_id, waves, back, evs);
}

/// The body runs again exactly where there is a loop edge, some node ran, passes
/// and budget are left, and the loop's source said something last that the
/// edge's condition lets through: that text is what is delivered.
pub proof fn law_body_runs_again(
    wf: &Workflow,
    back: &Option<WorkflowEdge>,
    st: &Ledger,
    iterations: u32,
    d: LoopDecision,
)
    requires
        call_ensures(decide_next_pass, (wf, back, st, iterations), d),
    ensures
        back is None ==> d is End,
        back is Some ==> {
            let b = back->0;
            let last = last_under(st.outputs@, b.from@, st.outputs@.len() as int);
            let may = st.ran && wf.exec_settings.max_iterations > 0 && iterations
                < wf.exec_settings.max_iterations;
            let spent = wf.exec_settings.budget_tokens > 0 && st.tokens
                >= wf.exec_settings.budget_tokens;
            &&& d is OutOfBudget <==> may && spent
            &&& d is Again <==> may && !spent && last is Some && lets_through(b.condition, last->0)
            &&& d is Again ==> d->Again_0@ == last->0
        },
{
    if let Some(b) = *back {
        lemma_last_under(st.outputs@, b.from@);
        let outs = last_texts(st.outputs@);
        if outs.dom().contains(b.from@) {
            lemma_lets_through(b.condition, outs[b.from@]);
        }
    }
}

/// The kickoff task is the input that is named `task`, or else the first.
pub proof fn law_kickoff_task(wf: &Workflow, t: Option<String>)
    requires
        call_ensures(crate::engines::workflow::task_of, (wf,), t),
    ensures
        t is None <==> wf.inputs@.len() == 0,
        forall|i: int|
            #![trigger wf.inputs@[i]]
            0 <= i < wf.inputs@.len() && wf.inputs@[i].0@ == "task"@ && (forall|j: int|
                0 <= j < i ==> (#[trigger] wf.inputs@[j]).0@ != "task"@) ==> t is Some && t->0@
                == wf.inputs@[i].1@,
        wf.inputs@.len() > 0 && (forall|j: int|
            0 <= j < wf.inputs@.len() ==> (#[trigger] wf.inputs@[j]).0@ != "task"@) ==> t is Some
            && t->0@ == wf.inputs@[0].1@,
{
    lemma_named_task(wf.inputs@);
}

proof fn lemma_named_task(v: Seq<(String, String)>)
    ensures
        match crate::engines::workflow::named_task(v) {
            Some(t) => exists|i: int|
                0 <= i < v.len() && (#[trigger] v[i]).0@ == "task"@ && v[i].1@ == t && forall|j: int|
                    0 <= j < i ==> (#[trigger] v[j]).0@ != "task"@,
            None => forall|j: int| 0 <= j < v.len() ==> (#[trigger] v[j]).0@ != "task"@,
        },
    decreases v.len(),
{
    if v.len() > 0 {
        let rest = v.drop_first();
        if v[0].0@ == "task"@ {
            assert(v[0].1@ == v[0].1@);
        } else {
            lemma_named_task(rest);
            match crate::engines::workflow::named_task(rest) {
                Some(t) => {
                    let i = choose|i: int|
                        0 <= i < rest.len() && (#[trigger] rest[i]).0@ == "task"@ && rest[i].1@ == t
                            && forall|j: int| 0 <= j < i ==> (#[trigger] rest[j]).0@ != "task"@;
                    assert(v[i + 1] == rest[i]);
                    assert forall|j: int| 0 <= j < i + 1 implies (#[trigger] v[j]).0@ != "task"@ by {
                        if j > 0 {
                            assert(rest[j - 1] == v[j]);
                        }
                    }
                },
                None => {
                    assert forall|j: int| 0 <= j < v.len() implies (#[trigger] v[j]).0@
                        != "task"@ by {
                        if j > 0 {
                            assert(rest[j - 1] == v[j]);
                        }
                    }
                },
            }
        }
    }
}

} // verus!
