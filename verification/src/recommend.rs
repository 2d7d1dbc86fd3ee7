//! Recommendation: what the benchmarked trials of a workload's tasks came to
//! per model and engine, and in which order an objective puts them.
use vstd::prelude::*;
use vstd::string::StringExecFns;

use crate::measure::Measure;
use crate::order::{arranged, in_order, lemma_in_order, stable_order, Ranking};
use crate::text::{owned, same};
use crate::workload::Workload;

verus! {

/// A model on an engine, ranked.
#[derive(Debug, Clone, PartialEq)]
pub struct RankedCandidate {
    pub model: String,
    pub engine: String,
    pub runs: usize,
    /// The fraction of runs that passed.
    pub success_rate: Measure,
    pub mean_score: Measure,
    pub p50_tok_s: Option<Measure>,
    pub mean_tok_s: Option<Measure>,
    pub explain: String,
}

/// The labels of a workload's tasks; an unknown workload is an error.
pub fn task_labels(w: Option<&Workload>, workload_id: &str) -> (r: Result<Vec<String>, String>)
    ensures
        match w {
            Some(w) => r is Ok && r->Ok_0@.len() == w.tasks@.len() && forall|i: int|
                0 <= i < w.tasks@.len() ==> (#[trigger] r->Ok_0@[i])@ == w.tasks@[i].label@,
            None => r is Err && r->Err_0@ == "unknown workload '"@ + workload_id@ + "'"@,
        },
{
    match w {
        Some(w) => {
            let mut r: Vec<String> = Vec::new();
            let mut i: usize = 0;
            while i < w.tasks.len()
                invariant
                    i <= w.tasks@.len(),
                    r@.len() == i,
                    forall|k: int| 0 <= k < i ==> (#[trigger] r@[k])@ == w.tasks@[k].label@,
                decreases w.tasks@.len() - i,
            {
                r.push(owned(w.tasks[i].label.as_str()));
                i = i + 1;
            }
            Ok(r)
        },
        None => {
            let mut e = owned("unknown workload '");
            e.append(workload_id);
            e.append("'");
            Err(e)
        },
    }
}

/// A trial of one of the tasks.
#[derive(Debug, Clone, PartialEq)]
pub struct TaskRun {
    pub id: i64,
    pub model: String,
    pub engine: String,
    pub tok_s: Option<Measure>,
}

/// Whether a trial passed, by its id.
pub type Verdict = (i64, bool);

/// Whether a trial passed: as its last evaluation says; a trial without one
/// counts as passed.
pub open spec fn passed_by(evals: Seq<Verdict>, id: i64) -> bool
    decreases evals.len(),
{
    if evals.len() == 0 {
        true
    } else if evals.last().0 == id {
        evals.last().1
    } else {
        passed_by(evals.drop_last(), id)
    }
}

fn has_passed(evals: &Vec<Verdict>, id: i64) -> (r: bool)
    ensures
        r == passed_by(evals@, id),
{
    let mut n: usize = evals.len();
    assert(evals@.take(n as int) =~= evals@);
    while n > 0
        invariant
            n <= evals@.len(),
            passed_by(evals@, id) == passed_by(evals@.take(n as int), id),
        decreases n,
    {
        assert(evals@.take(n as int).last() == evals@[n - 1]);
        assert(evals@.take(n as int).drop_last() =~= evals@.take(n - 1));
        if evals[n - 1].0 == id {
            return evals[n - 1].1;
        }
        n = n - 1;
    }
    true
}

/// What the trials of a model on an engine came to.
#[derive(Debug, Clone, PartialEq)]
pub struct Tally {
    pub model: String,
    pub engine: String,
    pub runs: usize,
    pub successes: usize,
    /// The speeds that were measured.
    pub speeds: Vec<Measure>,
    /// The median speed: the upper of the two middle ones.
    pub p50: Option<Measure>,
}

/// Two trials are of one model on one engine.
pub open spec fn same_pair(a: TaskRun, b: TaskRun) -> bool {
    a.model@ == b.model@ && a.engine@ == b.engine@
}

/// How many of the first `n` trials are of the pair of trial `h`.
pub open spec fn runs_upto(rows: Seq<TaskRun>, h: int, n: int) -> nat
    decreases n,
{
    if n <= 0 {
        0
    } else {
        runs_upto(rows, h, n - 1) + if same_pair(rows[n - 1], rows[h]) {
            1nat
        } else {
            0nat
        }
    }
}

/// How many of those passed.
pub open spec fn passed_upto(rows: Seq<TaskRun>, evals: Seq<Verdict>, h: int, n: int) -> nat
    decreases n,
{
    if n <= 0 {
        0
    } else {
        passed_upto(rows, evals, h, n - 1) + if same_pair(rows[n - 1], rows[h]) && passed_by(
            evals,
            rows[n - 1].id,
        ) {
            1nat
        } else {
            0nat
        }
    }
}

/// The speeds of those that were measured.
pub open spec fn speeds_upto(rows: Seq<TaskRun>, h: int, n: int) -> Seq<Measure>
    decreases n,
{
    if n <= 0 {
        Seq::empty()
    } else if same_pair(rows[n - 1], rows[h]) && rows[n - 1].tok_s is Some {
        speeds_upto(rows, h, n - 1).push(rows[n - 1].tok_s->0)
    } else {
        speeds_upto(rows, h, n - 1)
    }
}

/// Compares speeds.
pub open spec fn slower(v: Seq<Measure>) -> spec_fn(int, int) -> bool {
    |i: int, j: int| v[i].rank() < v[j].rank()
}

/// `m` stands in the middle of the speeds in order.
pub open spec fn is_median(v: Seq<Measure>, m: Option<Measure>) -> bool {
    if v.len() == 0 {
        m is None
    } else {
        exists|p: Seq<usize>|
            #[trigger] in_order(p, v.len(), slower(v)) && m == Some(
                v[p[v.len() as int / 2] as int],
            )
    }
}

/// Speeds, slowest first.
pub struct BySpeed {
    pub keys: Vec<Measure>,
}

impl Ranking for BySpeed {
    open spec fn count(&self) -> nat {
        self.keys@.len()
    }

    open spec fn before(&self, i: int, j: int) -> bool {
        self.keys@[i].rank() < self.keys@[j].rank()
    }

    proof fn weak_order(&self, i: int, j: int, k: int) {
    }

    fn len(&self) -> usize {
        self.keys.len()
    }

    fn comes_before(&self, i: usize, j: usize) -> bool {
        self.keys[i].ranks_below(self.keys[j])
    }
}

/// The median of speeds.
pub fn median(v: &Vec<Measure>) -> (r: Option<Measure>)
    ensures
        is_median(v@, r),
{
    if v.len() == 0 {
        return None;
    }
    let mut keys: Vec<Measure> = Vec::new();
    let mut i: usize = 0;
    while i < v.len()
        invariant
            i <= v@.len(),
            keys@ == v@.take(i as int),
        decreases v@.len() - i,
    {
        keys.push(v[i]);
        assert(v@.take(i + 1) =~= v@.take(i as int).push(v@[i as int]));
        i = i + 1;
    }
    assert(keys@ =~= v@);
    let ranking = BySpeed { keys };
    let p = stable_order(&ranking);
    proof {
        lemma_in_order(&ranking, p@, slower(v@));
    }
    let at = p[v.len() / 2];
    Some(v[at])
}

/// The tally is that of the pair of trial `h`.
pub open spec fn is_tally(rows: Seq<TaskRun>, evals: Seq<Verdict>, h: int, t: Tally) -> bool {
    let n = rows.len() as int;
    &&& t.model@ == rows[h].model@
    &&& t.engine@ == rows[h].engine@
    &&& t.runs == runs_upto(rows, h, n)
    &&& t.successes == passed_upto(rows, evals, h, n)
    &&& t.speeds@ == speeds_upto(rows, h, n)
    &&& is_median(t.speeds@, t.p50)
}

/// Trial `h` is the first of its pair.
pub open spec fn is_first(rows: Seq<TaskRun>, h: int) -> bool {
    forall|j: int| 0 <= j < h ==> !same_pair(#[trigger] rows[j], rows[h])
}

/// The positions among the first `n` that are the first of their pair.
pub open spec fn firsts_upto(rows: Seq<TaskRun>, n: int) -> Seq<int>
    decreases n,
{
    if n <= 0 {
        Seq::empty()
    } else if is_first(rows, n - 1) {
        firsts_upto(rows, n - 1).push(n - 1)
    } else {
        firsts_upto(rows, n - 1)
    }
}

/// One tally for each pair, in the order in which the pairs first occur.
pub open spec fn are_tallies(rows: Seq<TaskRun>, evals: Seq<Verdict>, r: Seq<Tally>) -> bool {
    let firsts = firsts_upto(rows, rows.len() as int);
    r.len() == firsts.len() && forall|i: int|
        0 <= i < r.len() ==> is_tally(rows, evals, firsts[i], #[trigger] r[i])
}

fn paired(a: &TaskRun, b: &TaskRun) -> (r: bool)
    ensures
        r == same_pair(*a, *b),
{
    same(a.model.as_str(), b.model.as_str()) && same(a.engine.as_str(), b.engine.as_str())
}

fn tally_of(rows: &Vec<TaskRun>, evals: &Vec<Verdict>, h: usize) -> (t: Tally)
    requires
        h < rows@.len(),
    ensures
        is_tally(rows@, evals@, h as int, t),
{
    let mut runs: usize = 0;
    let mut successes: usize = 0;
    let mut speeds: Vec<Measure> = Vec::new();
    let mut i: usize = 0;
    while i < rows.len()
        invariant
            h < rows@.len(),
            i <= rows@.len(),
            runs == runs_upto(rows@, h as int, i as int),
            successes == passed_upto(rows@, evals@, h as int, i as int),
            runs <= i,
            successes <= i,
            speeds@ == speeds_upto(rows@, h as int, i as int),
        decreases rows@.len() - i,
    {
        if paired(&rows[i], &rows[h]) {
            runs = runs + 1;
            if has_passed(evals, rows[i].id) {
                successes = successes + 1;
            }
            match rows[i].tok_s {
                Some(s) => {
                    speeds.push(s);
                },
                None => {},
            }
        }
        i = i + 1;
    }
    let p50 = median(&speeds);
    Tally {
        model: owned(rows[h].model.as_str()),
        engine: owned(rows[h].engine.as_str()),
        runs,
        successes,
        speeds,
        p50,
    }
}

fn first_of_pair(rows: &Vec<TaskRun>, h: usize) -> (r: bool)
    requires
        h < rows@.len(),
    ensures
        r == is_first(rows@, h as int),
{
    let mut j: usize = 0;
    while j < h
        invariant
            j <= h < rows@.len(),
            forall|k: int| 0 <= k < j ==> !same_pair(#[trigger] rows@[k], rows@[h as int]),
        decreases h - j,
    {
        if paired(&rows[j], &rows[h]) {
            return false;
        }
        j = j + 1;
    }
    true
}

/// What the trials of a workload came to, per model and engine. Without trials
/// there is nothing to recommend.
pub fn tallies(rows: &Vec<TaskRun>, evals: &Vec<Verdict>, workload_id: &str) -> (r: Result<
    Vec<Tally>,
    String,
>)
    ensures
        rows@.len() == 0 ==> r is Err && r->Err_0@
            == "insufficient data — run `deck bench matrix --workload "@ + workload_id@
            + "` first"@,
        rows@.len() > 0 ==> r is Ok && are_tallies(rows@, evals@, r->Ok_0@),
{
    if rows.len() == 0 {
        let mut e = owned("insufficient data — run `deck bench matrix --workload ");
        e.append(workload_id);
        e.append("` first");
        return Err(e);
    }
    let mut r: Vec<Tally> = Vec::new();
    let mut i: usize = 0;
    while i < rows.len()
        invariant
            i <= rows@.len(),
            r@.len() == firsts_upto(rows@, i as int).len(),
            forall|k: int|
                0 <= k < r@.len() ==> is_tally(
                    rows@,
                    evals@,
                    firsts_upto(rows@, i as int)[k],
                    #[trigger] r@[k],
                ),
        decreases rows@.len() - i,
    {
        if first_of_pair(rows, i) {
            r.push(tally_of(rows, evals, i));
        }
        i = i + 1;
    }
    Ok(r)
}

/// No more runs passed than there were.
pub proof fn law_successes_within_runs(
    rows: Seq<TaskRun>,
    evals: Seq<Verdict>,
    h: int,
    t: Tally,
)
    requires
        is_tally(rows, evals, h, t),
    ensures
        t.successes <= t.runs,
{
    lemma_passed(rows, evals, h, rows.len() as int);
}

proof fn lemma_passed(rows: Seq<TaskRun>, evals: Seq<Verdict>, h: int, n: int)
    ensures
        passed_upto(rows, evals, h, n) <= runs_upto(rows, h, n),
    decreases n,
{
    if n > 0 {
        lemma_passed(rows, evals, h, n - 1);
    }
}

proof fn lemma_pair_symmetric(a: TaskRun, b: TaskRun, c: TaskRun)
    ensures
        same_pair(a, a),
        same_pair(a, b) == same_pair(b, a),
        same_pair(a, b) && same_pair(b, c) ==> same_pair(a, c),
{
}

/// Each of the first `n` trials is of the pair of one listed position.
proof fn lemma_pair_listed(rows: Seq<TaskRun>, n: int, m: int) -> (k: int)
    requires
        0 <= m < n <= rows.len(),
    ensures
        0 <= k < firsts_upto(rows, n).len(),
        0 <= firsts_upto(rows, n)[k] < n,
        same_pair(rows[m], rows[firsts_upto(rows, n)[k]]),
    decreases n, m,
{
    if m < n - 1 {
        lemma_pair_listed(rows, n - 1, m)
    } else if is_first(rows, m) {
        firsts_upto(rows, n - 1).len() as int
    } else {
        let j = choose|j: int| 0 <= j < m && same_pair(#[trigger] rows[j], rows[m]);
        let k = lemma_pair_listed(rows, n - 1, j);
        lemma_pair_symmetric(rows[m], rows[j], rows[firsts_upto(rows, n - 1)[k]]);
        k
    }
}

/// Two listed positions are of different pairs.
proof fn lemma_firsts_differ(rows: Seq<TaskRun>, n: int, i: int, j: int)
    requires
        0 <= n <= rows.len(),
        0 <= i < j < firsts_upto(rows, n).len(),
    ensures
        0 <= firsts_upto(rows, n)[i] < firsts_upto(rows, n)[j] < n,
        !same_pair(rows[firsts_upto(rows, n)[i]], rows[firsts_upto(rows, n)[j]]),
    decreases n,
{
    if n > 0 {
        let rest = firsts_upto(rows, n - 1);
        if j < rest.len() {
            lemma_firsts_differ(rows, n - 1, i, j);
        } else {
            lemma_first_below(rows, n - 1, i);
            assert(is_first(rows, n - 1));
            assert(!same_pair(rows[rest[i]], rows[n - 1]));
        }
    }
}

proof fn lemma_first_below(rows: Seq<TaskRun>, n: int, i: int)
    requires
        0 <= n <= rows.len(),
        0 <= i < firsts_upto(rows, n).len(),
    ensures
        0 <= firsts_upto(rows, n)[i] < n,
    decreases n,
{
    if n > 0 && i < firsts_upto(rows, n - 1).len() {
        lemma_first_below(rows, n - 1, i);
    }
}

/// How many of the first `n` trials are of the pairs of the first `k` listed
/// positions.
spec fn runs_of_pairs(rows: Seq<TaskRun>, firsts: Seq<int>, n: int, k: int) -> nat
    decreases k,
{
    if k <= 0 {
        0
    } else {
        runs_of_pairs(rows, firsts, n, k - 1) + runs_upto(rows, firsts[k - 1], n)
    }
}

proof fn lemma_one_more_trial(rows: Seq<TaskRun>, firsts: Seq<int>, n: int, k: int, g: int)
    requires
        0 < n <= rows.len(),
        0 <= k <= firsts.len(),
        0 <= g < firsts.len(),
        same_pair(rows[n - 1], rows[firsts[g]]),
        forall|i: int|
            0 <= i < firsts.len() && i != g ==> !same_pair(rows[n - 1], rows[#[trigger] firsts[i]]),
    ensures
        runs_of_pairs(rows, firsts, n, k) == runs_of_pairs(rows, firsts, n - 1, k) + if g < k {
            1nat
        } else {
            0nat
        },
    decreases k,
{
    if k > 0 {
        lemma_one_more_trial(rows, firsts, n, k - 1, g);
        assert(firsts[k - 1] == firsts[k - 1]);
    }
}

proof fn lemma_no_trials(rows: Seq<TaskRun>, firsts: Seq<int>, k: int)
    ensures
        runs_of_pairs(rows, firsts, 0, k) == 0,
    decreases k,
{
    if k > 0 {
        lemma_no_trials(rows, firsts, k - 1);
    }
}

proof fn lemma_trials_counted(rows: Seq<TaskRun>, n: int)
    requires
        0 <= n <= rows.len(),
    ensures
        runs_of_pairs(
            rows,
            firsts_upto(rows, rows.len() as int),
            n,
            firsts_upto(rows, rows.len() as int).len() as int,
        ) == n,
    decreases n,
{
    let all = rows.len() as int;
    let firsts = firsts_upto(rows, all);
    if n > 0 {
        lemma_trials_counted(rows, n - 1);
        let g = lemma_pair_listed(rows, all, n - 1);
        assert forall|i: int| 0 <= i < firsts.len() && i != g implies !same_pair(
            rows[n - 1],
            rows[#[trigger] firsts[i]],
        ) by {
            lemma_pair_symmetric(rows[firsts[i]], rows[n - 1], rows[firsts[g]]);
            lemma_pair_symmetric(rows[n - 1], rows[firsts[i]], rows[firsts[g]]);
            lemma_pair_symmetric(rows[firsts[i]], rows[firsts[g]], rows[firsts[i]]);
            if i < g {
                lemma_firsts_differ(rows, all, i, g);
            } else {
                lemma_firsts_differ(rows, all, g, i);
            }
        }
        lemma_one_more_trial(rows, firsts, n, firsts.len() as int, g);
    } else {
        lemma_no_trials(rows, firsts, firsts.len() as int);
    }
}

/// The runs of the first `k` tallies.
pub open spec fn tallied(r: Seq<Tally>, k: int) -> nat
    decreases k,
{
    if k <= 0 {
        0
    } else {
        tallied(r, k - 1) + r[k - 1].runs as nat
    }
}

proof fn lemma_tallied(rows: Seq<TaskRun>, evals: Seq<Verdict>, r: Seq<Tally>, k: int)
    requires
        are_tallies(rows, evals, r),
        0 <= k <= r.len(),
    ensures
        tallied(r, k) == runs_of_pairs(
            rows,
            firsts_upto(rows, rows.len() as int),
            rows.len() as int,
            k,
        ),
    decreases k,
{
    if k > 0 {
        lemma_tallied(rows, evals, r, k - 1);
        assert(is_tally(rows, evals, firsts_upto(rows, rows.len() as int)[k - 1], r[k - 1]));
    }
}

/// Every trial is tallied once.
pub proof fn law_every_trial_is_tallied(rows: Seq<TaskRun>, evals: Seq<Verdict>, r: Seq<Tally>)
    requires
        are_tallies(rows, evals, r),
    ensures
        tallied(r, r.len() as int) == rows.len(),
{
    lemma_tallied(rows, evals, r, r.len() as int);
    lemma_trials_counted(rows, rows.len() as int);
}

/// A speed for comparison: none is below all.
pub open spec fn speed_rank(m: Option<Measure>) -> int {
    match m {
        Some(m) => m.rank(),
        None => -0x1_0000_0000_0000_0000,
    }
}

/// Compares candidates by an objective: by speed, by efficiency, or else by
/// success and then by speed. `efficiency` is success times speed.
pub open spec fn better(
    cands: Seq<RankedCandidate>,
    efficiency: Seq<Measure>,
    objective: Seq<char>,
) -> spec_fn(int, int) -> bool {
    |i: int, j: int|
        if objective == "speed"@ {
            speed_rank(cands[i].p50_tok_s) > speed_rank(cands[j].p50_tok_s)
        } else if objective == "efficient"@ {
            efficiency[i].rank() > efficiency[j].rank()
        } else {
            cands[i].success_rate.rank() > cands[j].success_rate.rank() || (
            cands[i].success_rate.rank() == cands[j].success_rate.rank() && speed_rank(
                cands[i].p50_tok_s,
            ) > speed_rank(cands[j].p50_tok_s))
        }
}

#[derive(Clone, Copy, PartialEq, Eq, Structural)]
enum Objective {
    Speed,
    Efficient,
    Success,
}

/// Keys of candidates, the best first.
struct ByObjective {
    objective: Objective,
    speeds: Vec<Option<Measure>>,
    efficiency: Vec<Measure>,
    success: Vec<Measure>,
}

impl ByObjective {
    spec fn even(&self) -> bool {
        self.speeds@.len() == self.success@.len() && self.efficiency@.len() == self.success@.len()
    }
}

fn faster(a: Option<Measure>, b: Option<Measure>) -> (r: bool)
    ensures
        r == (speed_rank(a) > speed_rank(b)),
{
    match (a, b) {
        (Some(x), Some(y)) => y.ranks_below(x),
        (Some(_), None) => true,
        _ => false,
    }
}

impl Ranking for ByObjective {
    closed spec fn count(&self) -> nat {
        if self.even() {
            self.success@.len()
        } else {
            0
        }
    }

    closed spec fn before(&self, i: int, j: int) -> bool {
        match self.objective {
            Objective::Speed => speed_rank(self.speeds@[i]) > speed_rank(self.speeds@[j]),
            Objective::Efficient => self.efficiency@[i].rank() > self.efficiency@[j].rank(),
            Objective::Success => self.success@[i].rank() > self.success@[j].rank() || (
            self.success@[i].rank() == self.success@[j].rank() && speed_rank(self.speeds@[i])
                > speed_rank(self.speeds@[j])),
        }
    }

    proof fn weak_order(&self, i: int, j: int, k: int) {
    }

    fn len(&self) -> usize {
        if self.speeds.len() == self.success.len() && self.efficiency.len() == self.success.len() {
            self.success.len()
        } else {
            0
        }
    }

    fn comes_before(&self, i: usize, j: usize) -> bool {
        match self.objective {
            Objective::Speed => faster(self.speeds[i], self.speeds[j]),
            Objective::Efficient => self.efficiency[j].ranks_below(self.efficiency[i]),
            Objective::Success => self.success[j].ranks_below(self.success[i]) || (
            !self.success[i].ranks_below(self.success[j]) && faster(
                self.speeds[i],
                self.speeds[j],
            )),
        }
    }
}

/// Ranks candidates by an objective, the best first; equals keep their order.
pub fn rank_candidates(
    cands: Vec<RankedCandidate>,
    efficiency: &Vec<Measure>,
    objective: &str,
) -> (r: Vec<RankedCandidate>)
    requires
        efficiency@.len() == cands@.len(),
    ensures
        exists|p: Seq<usize>|
            #[trigger] in_order(p, cands@.len(), better(cands@, efficiency@, objective@))
                && r@.len() == cands@.len() && forall|i: int|
                0 <= i < r@.len() ==> #[trigger] r@[i] == cands@[p[i] as int],
{
    let mut speeds: Vec<Option<Measure>> = Vec::new();
    let mut success: Vec<Measure> = Vec::new();
    let mut eff: Vec<Measure> = Vec::new();
    let mut i: usize = 0;
    while i < cands.len()
        invariant
            efficiency@.len() == cands@.len(),
            i <= cands@.len(),
            speeds@.len() == i,
            success@.len() == i,
            eff@.len() == i,
            forall|k: int|
                0 <= k < i ==> #[trigger] speeds@[k] == cands@[k].p50_tok_s && success@[k]
                    == cands@[k].success_rate && eff@[k] == efficiency@[k],
        decreases cands@.len() - i,
    {
        speeds.push(cands[i].p50_tok_s);
        success.push(cands[i].success_rate);
        eff.push(efficiency[i]);
        i = i + 1;
    }
    let chosen = if same(objective, "speed") {
        Objective::Speed
    } else if same(objective, "efficient") {
        Objective::Efficient
    } else {
        Objective::Success
    };
    let ranking = ByObjective { objective: chosen, speeds, efficiency: eff, success };
    let p = stable_order(&ranking);
    proof {
        let less = better(cands@, efficiency@, objective@);
        assert forall|i: int, j: int|
            0 <= i < ranking.count() && 0 <= j < ranking.count() implies #[trigger] ranking.before(
            i,
            j,
        ) == less(i, j) by {
            assert(ranking.speeds@[i] == cands@[i].p50_tok_s);
            assert(ranking.speeds@[j] == cands@[j].p50_tok_s);
        }
        lemma_in_order(&ranking, p@, less);
        assert(in_order(p@, cands@.len(), less));
    }
    arranged(cands, &p)
}

} // verus!
