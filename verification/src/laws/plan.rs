//! Plans of workflows: cycles, waves and neighbours.
use vstd::prelude::*;

use crate::text::texts;
use crate::workflow::{
    closed_walk, cyclic, forward, law_waves_complete, left_out_upto, lemma_link_index,
    lemma_ready_member, link_index, loop_edges_upto, node_ids, plan, ready, ready_ids, sources_upto,
    targets_upto, wave_texts, DryPlan, Workflow,
};

verus! {

/// A walk along edges that do not loop back, which ends where it began.
pub open spec fn comes_back(wf: Workflow, walk: Seq<int>) -> bool {
    &&& walk.len() > 0
    &&& forall|k: int|
        0 <= k < walk.len() ==> 0 <= #[trigger] walk[k] < wf.edges@.len()
            && !wf.edges@[walk[k]].loop_edge
    &&& forall|k: int|
        0 <= k < walk.len() - 1 ==> wf.edges@[#[trigger] walk[k]].to@ == wf.edges@[walk[k
            + 1]].from@
    &&& wf.edges@[walk.last()].to@ == wf.edges@[walk[0]].from@
}

/// A workflow is refused exactly where some walk along its edges, those that
/// loop back left out, comes back to where it began.
pub proof fn law_only_cycles_are_refused(wf: &Workflow, r: Result<DryPlan, String>)
    requires
        call_ensures(plan, (wf,), r),
    ensures
        r is Err <==> exists|walk: Seq<int>| comes_back(*wf, walk),
{
    if cyclic(*wf) {
        let c = choose|c: Seq<int>| closed_walk(*wf, c);
        assert forall|k: int| 0 <= k < c.len() implies 0 <= #[trigger] c[k] < wf.edges@.len()
            && !wf.edges@[c[k]].loop_edge by {
            assert(forward(*wf, c[k]));
        }
        assert(comes_back(*wf, c));
    }
    if exists|walk: Seq<int>| comes_back(*wf, walk) {
        let c = choose|walk: Seq<int>| comes_back(*wf, walk);
        assert(closed_walk(*wf, c));
    }
}

/// The check of a workflow agrees: it passes exactly where no walk comes back
/// and at most one edge loops.
pub proof fn law_validation(wf: &Workflow, r: Result<(), String>, i: int, j: int)
    requires
        call_ensures(Workflow::validate, (wf,), r),
    ensures
        (exists|walk: Seq<int>| comes_back(*wf, walk)) ==> r is Err,
        0 <= i < j < wf.edges@.len() && wf.edges@[i].loop_edge && wf.edges@[j].loop_edge
            ==> r is Err,
        (forall|walk: Seq<int>| !comes_back(*wf, walk)) && (forall|k: int|
            0 <= k < wf.edges@.len() && k != i ==> !(#[trigger] wf.edges@[k]).loop_edge) ==> r is Ok,
{
    if cyclic(*wf) {
        let c = choose|c: Seq<int>| closed_walk(*wf, c);
        assert forall|k: int| 0 <= k < c.len() implies 0 <= #[trigger] c[k] < wf.edges@.len()
            && !wf.edges@[c[k]].loop_edge by {
            assert(forward(*wf, c[k]));
        }
        assert(comes_back(*wf, c));
    }
    if exists|walk: Seq<int>| comes_back(*wf, walk) {
        let c = choose|walk: Seq<int>| comes_back(*wf, walk);
        assert(closed_walk(*wf, c));
    }
    if 0 <= i < j < wf.edges@.len() && wf.edges@[i].loop_edge && wf.edges@[j].loop_edge {
        lemma_loops_grow(*wf, i, i + 1);
        lemma_loops_grow(*wf, i + 1, j);
        lemma_loops_grow(*wf, j, j + 1);
        lemma_loops_grow(*wf, j + 1, wf.edges@.len() as int);
    }
    if forall|k: int| 0 <= k < wf.edges@.len() && k != i ==> !(#[trigger] wf.edges@[k]).loop_edge {
        lemma_one_loop(*wf, i, wf.edges@.len() as int);
    }
}

proof fn lemma_loops_grow(wf: Workflow, a: int, b: int)
    requires
        0 <= a <= b <= wf.edges@.len(),
    ensures
        loop_edges_upto(wf, a) <= loop_edges_upto(wf, b),
        b == a + 1 && wf.edges@[a].loop_edge ==> loop_edges_upto(wf, b) == loop_edges_upto(wf, a)
            + 1,
    decreases b - a,
{
    if a < b {
        lemma_loops_grow(wf, a, b - 1);
    }
}

proof fn lemma_one_loop(wf: Workflow, i: int, n: int)
    requires
        0 <= n <= wf.edges@.len(),
        forall|k: int| 0 <= k < n && k != i ==> !(#[trigger] wf.edges@[k]).loop_edge,
    ensures
        loop_edges_upto(wf, n) <= 1,
        i >= n || i < 0 ==> loop_edges_upto(wf, n) == 0,
    decreases n,
{
    if n > 0 {
        lemma_one_loop(wf, i, n - 1);
    }
}

/// The id stands in wave `k` of a plan.
pub open spec fn in_wave(p: DryPlan, k: int, id: Seq<char>) -> bool {
    0 <= k < p.waves@.len() && exists|i: int|
        0 <= i < p.waves@[k]@.len() && (#[trigger] p.waves@[k]@[i])@ == id
}

proof fn lemma_in_wave(p: DryPlan, k: int, id: Seq<char>)
    requires
        0 <= k < p.waves@.len(),
    ensures
        in_wave(p, k, id) <==> wave_texts(p.waves@)[k].contains(id),
{
    let w = wave_texts(p.waves@)[k];
    if w.contains(id) {
        let i = choose|i: int| 0 <= i < w.len() && w[i] == id;
        assert(p.waves@[k]@[i]@ == id);
    }
    if in_wave(p, k, id) {
        let i = choose|i: int| 0 <= i < p.waves@[k]@.len() && (#[trigger] p.waves@[k]@[i])@ == id;
        assert(w[i] == id);
    }
}

/// A node runs in the wave after the last of those that it waits for, and in no
/// other: what it waits for stands in earlier waves, and some of it in the wave
/// just before. No wave is empty.
pub proof fn law_waves_come_as_soon_as_they_can(
    wf: &Workflow,
    p: DryPlan,
    k: int,
    id: Seq<char>,
)
    requires
        call_ensures(plan, (wf,), Ok::<DryPlan, String>(p)),
        in_wave(p, k, id),
    ensures
        exists|i: int| 0 <= i < wf.nodes@.len() && (#[trigger] wf.nodes@[i]).id@ == id,
        forall|e: int|
            #![trigger wf.edges@[e]]
            0 <= e < wf.edges@.len() && !wf.edges@[e].loop_edge && wf.edges@[e].to@ == id
                ==> exists|j: int| 0 <= j < k && #[trigger] in_wave(p, j, wf.edges@[e].from@),
        forall|j: int| #[trigger] in_wave(p, j, id) ==> j == k,
        k > 0 ==> exists|e: int|
            #![trigger wf.edges@[e]]
            0 <= e < wf.edges@.len() && !wf.edges@[e].loop_edge && wf.edges@[e].to@ == id
                && in_wave(p, k - 1, wf.edges@[e].from@),
{
    let waves = wave_texts(p.waves@);
    let n = wf.nodes@.len() as int;
    lemma_in_wave(p, k, id);
    assert(waves[k] == ready_ids(*wf, waves, k));
    lemma_ready_member(*wf, waves, k, n, id);
    assert(ready(*wf, waves, k, id));
    assert forall|e: int|
        #![trigger wf.edges@[e]]
        0 <= e < wf.edges@.len() && !wf.edges@[e].loop_edge && wf.edges@[e].to@
            == id implies exists|j: int| 0 <= j < k && #[trigger] in_wave(
        p,
        j,
        wf.edges@[e].from@,
    ) by {
        assert(forward(*wf, e));
        let j = choose|j: int| 0 <= j < k && (#[trigger] waves[j]).contains(wf.edges@[e].from@);
        lemma_in_wave(p, j, wf.edges@[e].from@);
        assert(in_wave(p, j, wf.edges@[e].from@));
    }
    assert forall|j: int| #[trigger] in_wave(p, j, id) implies j == k by {
        lemma_in_wave(p, j, id);
        crate::workflow::law_waves_disjoint(*wf, waves, j, k, id);
    }
    if k > 0 {
        lemma_ready_member(*wf, waves, k - 1, n, id);
        assert(waves[k - 1] == ready_ids(*wf, waves, k - 1));
        lemma_in_wave(p, k - 1, id);
        assert(!waves[k - 1].contains(id));
        assert(!ready(*wf, waves, k - 1, id));
        assert(!crate::workflow::ran_before(waves, k - 1, id)) by {
            if crate::workflow::ran_before(waves, k - 1, id) {
                let j = choose|j: int| 0 <= j < k - 1 && (#[trigger] waves[j]).contains(id);
                assert(crate::workflow::ran_before(waves, k, id));
            }
        }
        let e = choose|e: int|
            #![trigger wf.edges@[e]]
            forward(*wf, e) && wf.edges@[e].to@ == id && !crate::workflow::ran_before(
                waves,
                k - 1,
                wf.edges@[e].from@,
            );
        assert(crate::workflow::ran_before(waves, k, wf.edges@[e].from@));
        let j = choose|j: int| 0 <= j < k && (#[trigger] waves[j]).contains(wf.edges@[e].from@);
        if j < k - 1 {
            assert(crate::workflow::ran_before(waves, k - 1, wf.edges@[e].from@));
        }
        lemma_in_wave(p, k - 1, wf.edges@[e].from@);
    }
}

/// Where every edge starts at a node, every node stands in a wave; what is
/// listed as unreachable are the nodes that stand in none.
pub proof fn law_every_node_has_a_wave(wf: &Workflow, p: DryPlan, i: int)
    requires
        call_ensures(plan, (wf,), Ok::<DryPlan, String>(p)),
        0 <= i < wf.nodes@.len(),
    ensures
        (forall|e: int|
            #![trigger wf.edges@[e]]
            0 <= e < wf.edges@.len() && !wf.edges@[e].loop_edge ==> exists|n: int|
                0 <= n < wf.nodes@.len() && (#[trigger] wf.nodes@[n]).id@ == wf.edges@[e].from@)
            ==> exists|k: int| #[trigger] in_wave(p, k, wf.nodes@[i].id@),
        (exists|k: int| #[trigger] in_wave(p, k, wf.nodes@[i].id@)) <==> !exists|u: int|
            0 <= u < p.unreachable@.len() && (#[trigger] p.unreachable@[u])@ == wf.nodes@[i].id@,
{
    let waves = wave_texts(p.waves@);
    let id = wf.nodes@[i].id@;
    let m = waves.len() as int;
    if forall|e: int|
        #![trigger wf.edges@[e]]
        0 <= e < wf.edges@.len() && !wf.edges@[e].loop_edge ==> exists|n: int|
            0 <= n < wf.nodes@.len() && (#[trigger] wf.nodes@[n]).id@ == wf.edges@[e].from@ {
        assert forall|e: int| #![trigger wf.edges@[e]] forward(*wf, e) implies node_ids(
            *wf,
        ).contains(wf.edges@[e].from@) by {
            let n = choose|n: int|
                0 <= n < wf.nodes@.len() && (#[trigger] wf.nodes@[n]).id@ == wf.edges@[e].from@;
            assert(node_ids(*wf)[n] == wf.edges@[e].from@);
        }
        assert(node_ids(*wf)[i] == id);
        law_waves_complete(*wf, waves, id);
        let k = choose|k: int| 0 <= k < m && (#[trigger] waves[k]).contains(id);
        lemma_in_wave(p, k, id);
        assert(in_wave(p, k, id));
    }
    lemma_left_out(*wf, waves, wf.nodes@.len() as int, id);
    let left = left_out_upto(*wf, waves, wf.nodes@.len() as int);
    if exists|k: int| #[trigger] in_wave(p, k, id) {
        let k = choose|k: int| #[trigger] in_wave(p, k, id);
        lemma_in_wave(p, k, id);
        assert(crate::workflow::ran_before(waves, m, id));
        assert forall|u: int| 0 <= u < p.unreachable@.len() implies (
        #[trigger] p.unreachable@[u])@ != id by {
            assert(texts(p.unreachable@)[u] == p.unreachable@[u]@);
        }
    } else {
        assert(!crate::workflow::ran_before(waves, m, id)) by {
            if crate::workflow::ran_before(waves, m, id) {
                let k = choose|k: int| 0 <= k < m && (#[trigger] waves[k]).contains(id);
                lemma_in_wave(p, k, id);
                assert(in_wave(p, k, id));
            }
        }
        let u = choose|u: int| 0 <= u < left.len() && left[u] == id;
        assert(texts(p.unreachable@)[u] == p.unreachable@[u]@);
    }
}

proof fn lemma_left_out(wf: Workflow, waves: Seq<Seq<Seq<char>>>, n: int, id: Seq<char>)
    requires
        0 <= n <= wf.nodes@.len(),
    ensures
        left_out_upto(wf, waves, n).contains(id) <==> !crate::workflow::ran_before(
            waves,
            waves.len() as int,
            id,
        ) && exists|i: int| 0 <= i < n && (#[trigger] wf.nodes@[i]).id@ == id,
    decreases n,
{
    if n > 0 {
        lemma_left_out(wf, waves, n - 1, id);
        let rest = left_out_upto(wf, waves, n - 1);
        let all = left_out_upto(wf, waves, n);
        if rest.contains(id) {
            let j = choose|j: int| 0 <= j < rest.len() && rest[j] == id;
            assert(all[j] == id);
        }
        if all.contains(id) && !rest.contains(id) {
            let j = choose|j: int| 0 <= j < all.len() && all[j] == id;
            if j < rest.len() {
                assert(rest[j] == id);
            }
            assert(wf.nodes@[n - 1].id@ == id);
        }
        if !crate::workflow::ran_before(waves, waves.len() as int, id) && exists|i: int|
            0 <= i < n && (#[trigger] wf.nodes@[i]).id@ == id {
            let i = choose|i: int| 0 <= i < n && (#[trigger] wf.nodes@[i]).id@ == id;
            if i == n - 1 {
                assert(all[rest.len() as int] == id);
            } else {
                assert(wf.nodes@[i].id@ == id);
                assert(rest.contains(id));
            }
        }
    }
}

/// The direct predecessors of a node are the sources of the edges into it, and
/// its successors the targets of those out of it.
pub proof fn law_neighbours(
    wf: &Workflow,
    p: DryPlan,
    id: &str,
    before: Option<&Vec<String>>,
    after: Option<&Vec<String>>,
    e: int,
)
    requires
        call_ensures(plan, (wf,), Ok::<DryPlan, String>(p)),
        call_ensures(DryPlan::predecessors_of, (&p, id), before),
        call_ensures(DryPlan::successors_of, (&p, id), after),
        0 <= e < wf.edges@.len(),
        !wf.edges@[e].loop_edge,
    ensures
        wf.edges@[e].to@ == id@ ==> before is Some && exists|i: int|
            0 <= i < before->0@.len() && (#[trigger] before->0@[i])@ == wf.edges@[e].from@,
        wf.edges@[e].from@ == id@ ==> after is Some && exists|i: int|
            0 <= i < after->0@.len() && (#[trigger] after->0@[i])@ == wf.edges@[e].to@,
{
    assert(forward(*wf, e));
    let n = wf.edges@.len() as int;
    if wf.edges@[e].to@ == id@ {
        lemma_link_index(p.predecessors@, id@);
        assert(link_index(p.predecessors@, crate::workflow::key_end(
            wf.edges@[e],
            crate::workflow::Side::Sources,
        )) is Some);
        let l = link_index(p.predecessors@, id@)->0;
        lemma_sources(*wf, id@, n, e);
        let s = sources_upto(*wf, id@, n);
        let i = choose|i: int| 0 <= i < s.len() && s[i] == wf.edges@[e].from@;
        assert(texts(p.predecessors@[l].peers@)[i] == before->0@[i]@);
    }
    if wf.edges@[e].from@ == id@ {
        lemma_link_index(p.successors@, id@);
        assert(link_index(p.successors@, crate::workflow::key_end(
            wf.edges@[e],
            crate::workflow::Side::Targets,
        )) is Some);
        let l = link_index(p.successors@, id@)->0;
        lemma_targets(*wf, id@, n, e);
        let s = targets_upto(*wf, id@, n);
        let i = choose|i: int| 0 <= i < s.len() && s[i] == wf.edges@[e].to@;
        assert(texts(p.successors@[l].peers@)[i] == after->0@[i]@);
    }
}

proof fn lemma_sources(wf: Workflow, id: Seq<char>, n: int, e: int)
    requires
        0 <= e < n <= wf.edges@.len(),
        !wf.edges@[e].loop_edge,
        wf.edges@[e].to@ == id,
    ensures
        sources_upto(wf, id, n).contains(wf.edges@[e].from@),
    decreases n,
{
    let rest = sources_upto(wf, id, n - 1);
    let all = sources_upto(wf, id, n);
    if e == n - 1 {
        assert(all[rest.len() as int] == wf.edges@[e].from@);
    } else {
        lemma_sources(wf, id, n - 1, e);
        let i = choose|i: int| 0 <= i < rest.len() && rest[i] == wf.edges@[e].from@;
        assert(all[i] == rest[i]);
    }
}

proof fn lemma_targets(wf: Workflow, id: Seq<char>, n: int, e: int)
    requires
        0 <= e < n <= wf.edges@.len(),
        !wf.edges@[e].loop_edge,
        wf.edges@[e].from@ == id,
    ensures
        targets_upto(wf, id, n).contains(wf.edges@[e].to@),
    decreases n,
{
    let rest = targets_upto(wf, id, n - 1);
    let all = targets_upto(wf, id, n);
    if e == n - 1 {
        assert(all[rest.len() as int] == wf.edges@[e].to@);
    } else {
        lemma_targets(wf, id, n - 1, e);
        let i = choose|i: int| 0 <= i < rest.len() && rest[i] == wf.edges@[e].to@;
        assert(all[i] == rest[i]);
    }
}

} // verus!
