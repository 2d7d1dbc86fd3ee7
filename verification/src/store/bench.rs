//! Benchmark records.
use vstd::prelude::*;

use crate::measure::Measure;
use crate::order::{in_order, is_stable_order, lemma_in_order, stable_order, Ranking};
use crate::text::{
    has_text, lemma_lex, lemma_lex_total, lex_below, opt_text, owned, same, str_lex_below, texts,
};

verus! {

/// One recorded trial of the model × quant × engine matrix. It keeps the raw
/// ingredients, so that derived metrics can be recomputed.
#[derive(Debug, Clone, PartialEq)]
pub struct MatrixRow {
    pub engine: String,
    pub model: String,
    pub ctx: u32,
    pub task: String,
    pub run: u32,
    /// `RUNNING` where the sample was taken, else what ended the trial.
    pub verdict: String,
    pub summary: String,
    pub gen_tokens: Option<u64>,
    pub prompt_tokens: Option<u64>,
    pub tok_s: Option<Measure>,
    /// `native` for the engine's own timing, `wall` for the clock's.
    pub tok_s_kind: String,
    pub wall_ms: u64,
    pub output: String,
    /// Unix time in seconds.
    pub at: i64,
    pub workload_id: Option<String>,
    pub hardware_profile_id: Option<i64>,
    pub engine_version: Option<String>,
    pub prompt_tps: Option<Measure>,
    pub ttft_ms: Option<u64>,
    pub peak_vram_mb: Option<u64>,
    pub model_rev: Option<String>,
    pub sampling_json: Option<String>,
    pub role_id: Option<String>,
    pub workflow_id: Option<String>,
}

/// The values of a trial.
pub struct RowView {
    pub engine: Seq<char>,
    pub model: Seq<char>,
    pub ctx: u32,
    pub task: Seq<char>,
    pub run: u32,
    pub verdict: Seq<char>,
    pub summary: Seq<char>,
    pub gen_tokens: Option<u64>,
    pub prompt_tokens: Option<u64>,
    pub tok_s: Option<Measure>,
    pub tok_s_kind: Seq<char>,
    pub wall_ms: u64,
    pub output: Seq<char>,
    pub at: i64,
    pub workload_id: Option<Seq<char>>,
    pub hardware_profile_id: Option<i64>,
    pub engine_version: Option<Seq<char>>,
    pub prompt_tps: Option<Measure>,
    pub ttft_ms: Option<u64>,
    pub peak_vram_mb: Option<u64>,
    pub model_rev: Option<Seq<char>>,
    pub sampling_json: Option<Seq<char>>,
    pub role_id: Option<Seq<char>>,
    pub workflow_id: Option<Seq<char>>,
}

impl View for MatrixRow {
    type V = RowView;

    open spec fn view(&self) -> RowView {
        RowView {
            engine: self.engine@,
            model: self.model@,
            ctx: self.ctx,
            task: self.task@,
            run: self.run,
            verdict: self.verdict@,
            summary: self.summary@,
            gen_tokens: self.gen_tokens,
            prompt_tokens: self.prompt_tokens,
            tok_s: self.tok_s,
            tok_s_kind: self.tok_s_kind@,
            wall_ms: self.wall_ms,
            output: self.output@,
            at: self.at,
            workload_id: opt_text(self.workload_id),
            hardware_profile_id: self.hardware_profile_id,
            engine_version: opt_text(self.engine_version),
            prompt_tps: self.prompt_tps,
            ttft_ms: self.ttft_ms,
            peak_vram_mb: self.peak_vram_mb,
            model_rev: opt_text(self.model_rev),
            sampling_json: opt_text(self.sampling_json),
            role_id: opt_text(self.role_id),
            workflow_id: opt_text(self.workflow_id),
        }
    }
}

/// The views of a list of trials.
pub open spec fn row_views(v: Seq<MatrixRow>) -> Seq<RowView> {
    Seq::new(v.len(), |i: int| v[i]@)
}

/// A trial as it is stored.
#[derive(Debug, Clone, PartialEq)]
pub struct StoredRun {
    pub id: i64,
    pub row: MatrixRow,
}

/// What a role's runs on one engine and model came to.
#[derive(Debug, Clone, PartialEq)]
pub struct RoleBenchRow {
    pub role_id: String,
    pub engine: String,
    pub model: String,
    pub runs: u64,
    pub best_tps: Measure,
    /// The speed of each run, of which the average is taken.
    pub speeds: Vec<Measure>,
    /// Of the most recent run.
    pub last_tps: Measure,
    pub last_wall_ms: u64,
    pub last_ttft_ms: Option<u64>,
}

/// The role that a trial fed; empty where it fed none.
pub open spec fn role_of(r: StoredRun) -> Seq<char> {
    match opt_text(r.row.role_id) {
        Some(t) => t,
        None => Seq::empty(),
    }
}

/// A trial counts for the roles: it fed one of them and was measured.
pub open spec fn counts(roles: Seq<Seq<char>>, r: StoredRun) -> bool {
    r.row.role_id is Some && roles.contains(role_of(r)) && r.row.tok_s is Some
}

/// Two trials are of one role, engine and model.
pub open spec fn same_group(a: StoredRun, b: StoredRun) -> bool {
    role_of(a) == role_of(b) && a.row.engine@ == b.row.engine@ && a.row.model@ == b.row.model@
}

/// The positions of the first `n` trials that count and are of the group of
/// trial `h`.
pub open spec fn group_upto(rows: Seq<StoredRun>, roles: Seq<Seq<char>>, h: int, n: int) -> Seq<int>
    decreases n,
{
    if n <= 0 {
        Seq::empty()
    } else if counts(roles, rows[n - 1]) && same_group(rows[n - 1], rows[h]) {
        group_upto(rows, roles, h, n - 1).push(n - 1)
    } else {
        group_upto(rows, roles, h, n - 1)
    }
}

pub open spec fn group_of(rows: Seq<StoredRun>, roles: Seq<Seq<char>>, h: int) -> Seq<int> {
    group_upto(rows, roles, h, rows.len() as int)
}

/// Trial `h` counts and is the first of its group.
pub open spec fn is_head(rows: Seq<StoredRun>, roles: Seq<Seq<char>>, h: int) -> bool {
    counts(roles, rows[h]) && forall|j: int|
        0 <= j < h && counts(roles, #[trigger] rows[j]) ==> !same_group(rows[j], rows[h])
}

/// The positions among the first `n` that are the first of their group.
pub open spec fn heads_upto(rows: Seq<StoredRun>, roles: Seq<Seq<char>>, n: int) -> Seq<int>
    decreases n,
{
    if n <= 0 {
        Seq::empty()
    } else if is_head(rows, roles, n - 1) {
        heads_upto(rows, roles, n - 1).push(n - 1)
    } else {
        heads_upto(rows, roles, n - 1)
    }
}

/// The speed of a trial.
pub open spec fn speed_of(r: StoredRun) -> Measure {
    match r.row.tok_s {
        Some(m) => m,
        None => Measure { bits: 0 },
    }
}

/// The fastest of the trials at the first `n` of a list of positions.
pub open spec fn fastest(rows: Seq<StoredRun>, at: Seq<int>, n: int) -> Measure
    decreases n,
{
    if n <= 1 {
        speed_of(rows[at[0]])
    } else {
        let best = fastest(rows, at, n - 1);
        if best.rank() < speed_of(rows[at[n - 1]]).rank() {
            speed_of(rows[at[n - 1]])
        } else {
            best
        }
    }
}

/// Trial `a` is more recent than trial `b`: it was taken later, or stored later
/// in the same second.
pub open spec fn more_recent(a: StoredRun, b: StoredRun) -> bool {
    a.row.at > b.row.at || (a.row.at == b.row.at && a.id > b.id)
}

/// The position of the most recent of the trials at the first `n` of a list of
/// positions.
pub open spec fn latest(rows: Seq<StoredRun>, at: Seq<int>, n: int) -> int
    decreases n,
{
    if n <= 1 {
        at[0]
    } else {
        let last = latest(rows, at, n - 1);
        if more_recent(rows[at[n - 1]], rows[last]) {
            at[n - 1]
        } else {
            last
        }
    }
}

/// The speeds of the trials at a list of positions.
pub open spec fn speeds_at(rows: Seq<StoredRun>, at: Seq<int>) -> Seq<Measure> {
    Seq::new(at.len(), |i: int| speed_of(rows[at[i]]))
}

/// The record is that of the group of trial `h`.
pub open spec fn is_role_bench(
    rows: Seq<StoredRun>,
    roles: Seq<Seq<char>>,
    h: int,
    b: RoleBenchRow,
) -> bool {
    let at = group_of(rows, roles, h);
    let last = rows[latest(rows, at, at.len() as int)];
    &&& b.role_id@ == role_of(rows[h])
    &&& b.engine@ == rows[h].row.engine@
    &&& b.model@ == rows[h].row.model@
    &&& b.runs == at.len()
    &&& b.best_tps == fastest(rows, at, at.len() as int)
    &&& b.speeds@ == speeds_at(rows, at)
    &&& b.last_tps == speed_of(last)
    &&& b.last_wall_ms == last.row.wall_ms
    &&& b.last_ttft_ms == last.row.ttft_ms
}

/// The fastest of the group of trial `h`.
pub open spec fn best_of(rows: Seq<StoredRun>, roles: Seq<Seq<char>>, h: int) -> Measure {
    fastest(rows, group_of(rows, roles, h), group_of(rows, roles, h).len() as int)
}

/// Orders groups by role, and within a role the fastest first.
pub open spec fn ranks_before(rows: Seq<StoredRun>, roles: Seq<Seq<char>>, heads: Seq<int>) -> spec_fn(
    int,
    int,
) -> bool {
    |i: int, j: int|
        lex_below(role_of(rows[heads[i]]), role_of(rows[heads[j]])) || (role_of(rows[heads[i]])
            == role_of(rows[heads[j]]) && best_of(rows, roles, heads[i]).rank() > best_of(
            rows,
            roles,
            heads[j],
        ).rank())
}

/// The records are those of the groups, by role, the fastest of a role first.
pub open spec fn are_role_benches(
    rows: Seq<StoredRun>,
    roles: Seq<Seq<char>>,
    r: Seq<RoleBenchRow>,
) -> bool {
    let heads = heads_upto(rows, roles, rows.len() as int);
    exists|p: Seq<usize>|
        #[trigger] in_order(p, heads.len(), ranks_before(rows, roles, heads)) && r.len()
            == heads.len() && forall|i: int|
            0 <= i < r.len() ==> is_role_bench(rows, roles, heads[p[i] as int], #[trigger] r[i])
}

/// Roles with speeds: by role, the fastest of a role first.
pub struct ByRole {
    pub roles: Vec<String>,
    pub speeds: Vec<Measure>,
}

impl Ranking for ByRole {
    open spec fn count(&self) -> nat {
        if self.roles@.len() < self.speeds@.len() {
            self.roles@.len()
        } else {
            self.speeds@.len()
        }
    }

    open spec fn before(&self, i: int, j: int) -> bool {
        lex_below(self.roles@[i]@, self.roles@[j]@) || (self.roles@[i]@ == self.roles@[j]@
            && self.speeds@[i].rank() > self.speeds@[j].rank())
    }

    proof fn weak_order(&self, i: int, j: int, k: int) {
        let (a, b, c) = (self.roles@[i]@, self.roles@[j]@, self.roles@[k]@);
        lemma_lex(a, b, c);
        lemma_lex(a, c, b);
        lemma_lex(c, b, a);
        lemma_lex_total(a, b);
        lemma_lex_total(b, c);
        lemma_lex_total(a, c);
    }

    fn len(&self) -> usize {
        if self.roles.len() < self.speeds.len() {
            self.roles.len()
        } else {
            self.speeds.len()
        }
    }

    fn comes_before(&self, i: usize, j: usize) -> bool {
        str_lex_below(self.roles[i].as_str(), self.roles[j].as_str()) || (same(
            self.roles[i].as_str(),
            self.roles[j].as_str(),
        ) && self.speeds[j].ranks_below(self.speeds[i]))
    }
}

fn is_counted(roles: &Vec<String>, r: &StoredRun) -> (b: bool)
    ensures
        b == counts(texts(roles@), *r),
{
    match &r.row.role_id {
        Some(role) => r.row.tok_s.is_some() && has_text(roles, role.as_str()),
        None => false,
    }
}

fn role_text(r: &StoredRun) -> (s: String)
    ensures
        s@ == role_of(*r),
{
    match &r.row.role_id {
        Some(role) => owned(role.as_str()),
        None => String::new(),
    }
}

fn grouped(a: &StoredRun, b: &StoredRun) -> (r: bool)
    ensures
        r == same_group(*a, *b),
{
    same(role_text(a).as_str(), role_text(b).as_str()) && same(
        a.row.engine.as_str(),
        b.row.engine.as_str(),
    ) && same(a.row.model.as_str(), b.row.model.as_str())
}

fn is_more_recent(a: &StoredRun, b: &StoredRun) -> (r: bool)
    ensures
        r == more_recent(*a, *b),
{
    a.row.at > b.row.at || (a.row.at == b.row.at && a.id > b.id)
}

fn run_speed(r: &StoredRun) -> (m: Measure)
    ensures
        m == speed_of(*r),
{
    match r.row.tok_s {
        Some(m) => m,
        None => Measure { bits: 0 },
    }
}

proof fn lemma_group_has_head(rows: Seq<StoredRun>, roles: Seq<Seq<char>>, h: int, n: int)
    requires
        0 <= h < n <= rows.len(),
        counts(roles, rows[h]),
    ensures
        group_upto(rows, roles, h, n).len() > 0,
    decreases n,
{
    if h < n - 1 {
        lemma_group_has_head(rows, roles, h, n - 1);
    }
}

/// What the group of trial `h` came to.
fn role_bench(rows: &Vec<StoredRun>, roles: &Vec<String>, h: usize) -> (b: RoleBenchRow)
    requires
        h < rows@.len(),
        counts(texts(roles@), rows@[h as int]),
    ensures
        is_role_bench(rows@, texts(roles@), h as int, b),
        b.best_tps == best_of(rows@, texts(roles@), h as int),
{
    let ghost want = texts(roles@);
    let mut speeds: Vec<Measure> = Vec::new();
    let mut best: Measure = Measure { bits: 0 };
    let mut last: usize = 0;
    let mut i: usize = 0;
    while i < rows.len()
        invariant
            want == texts(roles@),
            h < rows@.len(),
            i <= rows@.len(),
            speeds@ == speeds_at(rows@, group_upto(rows@, want, h as int, i as int)),
            speeds@.len() <= i,
            speeds@.len() > 0 ==> last < rows@.len() && last == latest(
                rows@,
                group_upto(rows@, want, h as int, i as int),
                speeds@.len() as int,
            ) && best == fastest(
                rows@,
                group_upto(rows@, want, h as int, i as int),
                speeds@.len() as int,
            ),
        decreases rows@.len() - i,
    {
        let ghost at = group_upto(rows@, want, h as int, i as int);
        if is_counted(roles, &rows[i]) && grouped(&rows[i], &rows[h]) {
            let s = run_speed(&rows[i]);
            proof {
                let more = at.push(i as int);
                lemma_prefix(rows@, at, i as int, at.len() as int);
                assert(speeds_at(rows@, more) =~= speeds_at(rows@, at).push(s));
            }
            if speeds.len() == 0 || best.ranks_below(s) {
                best = s;
            }
            if speeds.len() == 0 || is_more_recent(&rows[i], &rows[last]) {
                last = i;
            }
            speeds.push(s);
        }
        i = i + 1;
    }
    proof {
        lemma_group_has_head(rows@, want, h as int, rows@.len() as int);
    }
    let l = &rows[last];
    RoleBenchRow {
        role_id: role_text(&rows[h]),
        engine: owned(rows[h].row.engine.as_str()),
        model: owned(rows[h].row.model.as_str()),
        runs: speeds.len() as u64,
        best_tps: best,
        speeds,
        last_tps: run_speed(l),
        last_wall_ms: l.row.wall_ms,
        last_ttft_ms: l.row.ttft_ms,
    }
}

proof fn lemma_prefix(rows: Seq<StoredRun>, at: Seq<int>, x: int, n: int)
    requires
        0 <= n <= at.len(),
    ensures
        n > 0 ==> fastest(rows, at.push(x), n) == fastest(rows, at, n) && latest(
            rows,
            at.push(x),
            n,
        ) == latest(rows, at, n),
    decreases n,
{
    if n > 1 {
        lemma_prefix(rows, at, x, n - 1);
    }
}

fn first_of_group(rows: &Vec<StoredRun>, roles: &Vec<String>, h: usize) -> (r: bool)
    requires
        h < rows@.len(),
    ensures
        r == is_head(rows@, texts(roles@), h as int),
{
    if !is_counted(roles, &rows[h]) {
        return false;
    }
    let ghost want = texts(roles@);
    let mut j: usize = 0;
    while j < h
        invariant
            want == texts(roles@),
            counts(want, rows@[h as int]),
            j <= h < rows@.len(),
            forall|k: int|
                0 <= k < j && counts(want, #[trigger] rows@[k]) ==> !same_group(
                    rows@[k],
                    rows@[h as int],
                ),
        decreases h - j,
    {
        if is_counted(roles, &rows[j]) && grouped(&rows[j], &rows[h]) {
            return false;
        }
        j = j + 1;
    }
    true
}

/// What the measured runs of the given roles came to, per role, engine and
/// model.
pub fn per_role_bench(rows: &Vec<StoredRun>, roles: &Vec<String>) -> (r: Vec<RoleBenchRow>)
    ensures
        are_role_benches(rows@, texts(roles@), r@),
{
    let ghost want = texts(roles@);
    let n = rows.len();
    let mut heads: Vec<usize> = Vec::new();
    let mut names: Vec<String> = Vec::new();
    let mut speeds: Vec<Measure> = Vec::new();
    let mut i: usize = 0;
    while i < n
        invariant
            want == texts(roles@),
            n == rows@.len(),
            i <= n,
            heads@.len() == heads_upto(rows@, want, i as int).len(),
            names@.len() == heads@.len(),
            speeds@.len() == heads@.len(),
            forall|k: int|
                0 <= k < heads@.len() ==> #[trigger] heads@[k] == heads_upto(
                    rows@,
                    want,
                    i as int,
                )[k] && heads@[k] < i && counts(want, rows@[heads@[k] as int]) && names@[k]@
                    == role_of(rows@[heads@[k] as int]) && speeds@[k] == best_of(
                    rows@,
                    want,
                    heads@[k] as int,
                ),
        decreases n - i,
    {
        if first_of_group(rows, roles, i) {
            let b = role_bench(rows, roles, i);
            names.push(role_text(&rows[i]));
            speeds.push(b.best_tps);
            heads.push(i);
        }
        i = i + 1;
    }
    let ranking = ByRole { roles: names, speeds };
    let p = stable_order(&ranking);
    let mut r: Vec<RoleBenchRow> = Vec::new();
    let mut k: usize = 0;
    while k < p.len()
        invariant
            want == texts(roles@),
            is_stable_order(&ranking, p@),
            ranking.count() == heads@.len(),
            forall|j: int|
                0 <= j < heads@.len() ==> #[trigger] heads@[j] < rows@.len() && counts(
                    want,
                    rows@[heads@[j] as int],
                ),
            k <= p@.len(),
            r@.len() == k,
            forall|j: int|
                0 <= j < k ==> is_role_bench(
                    rows@,
                    want,
                    heads@[p@[j] as int] as int,
                    #[trigger] r@[j],
                ),
        decreases p@.len() - k,
    {
        assert(p@[k as int] < heads@.len());
        r.push(role_bench(rows, roles, heads[p[k]]));
        k = k + 1;
    }
    proof {
        let pos = heads_upto(rows@, want, n as int);
        let less = ranks_before(rows@, want, pos);
        assert forall|i: int, j: int|
            0 <= i < ranking.count() && 0 <= j < ranking.count() implies #[trigger] ranking.before(
            i,
            j,
        ) == less(i, j) by {
            assert(heads@[i] == pos[i] && heads@[j] == pos[j]);
        }
        lemma_in_order(&ranking, p@, less);
        assert(in_order(p@, pos.len(), less));
        assert forall|j: int| 0 <= j < r@.len() implies is_role_bench(
            rows@,
            want,
            pos[p@[j] as int],
            #[trigger] r@[j],
        ) by {
            assert(p@[j] < heads@.len());
            assert(heads@[p@[j] as int] == pos[p@[j] as int]);
        }
    }
    r
}

proof fn lemma_fastest(rows: Seq<StoredRun>, at: Seq<int>, n: int, k: int)
    requires
        0 <= k < n <= at.len(),
    ensures
        speed_of(rows[at[k]]).rank() <= fastest(rows, at, n).rank(),
    decreases n,
{
    if k < n - 1 {
        lemma_fastest(rows, at, n - 1, k);
    } else if n > 1 {
        assert(fastest(rows, at, n).rank() >= speed_of(rows[at[n - 1]]).rank());
    }
}

/// No run of a group is faster than the best that is reported for it.
pub proof fn law_best_is_fastest(
    rows: Seq<StoredRun>,
    roles: Seq<Seq<char>>,
    h: int,
    b: RoleBenchRow,
    k: int,
)
    requires
        is_role_bench(rows, roles, h, b),
        0 <= k < b.speeds@.len(),
    ensures
        b.speeds@[k].rank() <= b.best_tps.rank(),
{
    let at = group_of(rows, roles, h);
    lemma_fastest(rows, at, at.len() as int, k);
}

proof fn lemma_latest(rows: Seq<StoredRun>, at: Seq<int>, n: int, k: int)
    requires
        0 <= k < n <= at.len(),
    ensures
        !more_recent(rows[at[k]], rows[latest(rows, at, n)]),
    decreases n,
{
    if k < n - 1 {
        lemma_latest(rows, at, n - 1, k);
    }
}

/// No run of a group is more recent than the one that is reported as the last.
pub proof fn law_last_is_most_recent(rows: Seq<StoredRun>, roles: Seq<Seq<char>>, h: int, k: int)
    requires
        0 <= k < group_of(rows, roles, h).len(),
    ensures
        ({
            let at = group_of(rows, roles, h);
            !more_recent(rows[at[k]], rows[latest(rows, at, at.len() as int)])
        }),
{
    let at = group_of(rows, roles, h);
    lemma_latest(rows, at, at.len() as int, k);
}

/// One pass of a workflow: the tokens and the time of the trials that were
/// recorded together.
#[derive(Debug, Clone, Copy, PartialEq, Eq, Structural)]
pub struct LoopPass {
    pub at: i64,
    pub gen_tokens: u64,
    pub wall_ms: u64,
}

/// What a workflow's passes came to.
#[derive(Debug, Clone, PartialEq)]
pub struct LoopBenchRow {
    pub workflow_id: String,
    pub runs: u64,
    pub best_tps: Measure,
    pub avg_tps: Measure,
    pub last_tps: Measure,
    pub last_wall_ms: u64,
    pub last_gen_tokens: u64,
}

/// A measured trial of a workflow.
pub open spec fn of_workflow(wf: Seq<char>, r: MatrixRow) -> bool {
    opt_text(r.workflow_id) == Some(wf) && r.tok_s is Some
}

/// The tokens of the first `n` trials of a workflow that were recorded at a
/// time.
pub open spec fn tokens_upto(rows: Seq<MatrixRow>, wf: Seq<char>, at: i64, n: int) -> nat
    decreases n,
{
    if n <= 0 {
        0
    } else {
        tokens_upto(rows, wf, at, n - 1) + if of_workflow(wf, rows[n - 1]) && rows[n - 1].at == at {
            match rows[n - 1].gen_tokens {
                Some(g) => g as nat,
                None => 0nat,
            }
        } else {
            0nat
        }
    }
}

/// The time of the first `n` trials of a workflow that were recorded at a time.
pub open spec fn wall_upto(rows: Seq<MatrixRow>, wf: Seq<char>, at: i64, n: int) -> nat
    decreases n,
{
    if n <= 0 {
        0
    } else {
        wall_upto(rows, wf, at, n - 1) + if of_workflow(wf, rows[n - 1]) && rows[n - 1].at == at {
            rows[n - 1].wall_ms as nat
        } else {
            0nat
        }
    }
}

/// The tokens of the first `n` trials.
pub open spec fn all_tokens_upto(rows: Seq<MatrixRow>, n: int) -> nat
    decreases n,
{
    if n <= 0 {
        0
    } else {
        all_tokens_upto(rows, n - 1) + match rows[n - 1].gen_tokens {
            Some(g) => g as nat,
            None => 0nat,
        }
    }
}

/// The time of the first `n` trials.
pub open spec fn all_wall_upto(rows: Seq<MatrixRow>, n: int) -> nat
    decreases n,
{
    if n <= 0 {
        0
    } else {
        all_wall_upto(rows, n - 1) + rows[n - 1].wall_ms as nat
    }
}

proof fn lemma_pass_sums(rows: Seq<MatrixRow>, wf: Seq<char>, at: i64, n: int)
    requires
        0 <= n <= rows.len(),
    ensures
        tokens_upto(rows, wf, at, n) <= all_tokens_upto(rows, n),
        wall_upto(rows, wf, at, n) <= all_wall_upto(rows, n),
    decreases n,
{
    if n > 0 {
        lemma_pass_sums(rows, wf, at, n - 1);
    }
}

proof fn lemma_all_sums(rows: Seq<MatrixRow>, n: int)
    requires
        0 <= n <= rows.len(),
    ensures
        all_tokens_upto(rows, n) <= all_tokens_upto(rows, rows.len() as int),
        all_wall_upto(rows, n) <= all_wall_upto(rows, rows.len() as int),
    decreases rows.len() - n,
{
    if n < rows.len() {
        lemma_all_sums(rows, n + 1);
    }
}

/// The pass is what a workflow's trials of that time add up to.
pub open spec fn is_pass(rows: Seq<MatrixRow>, wf: Seq<char>, p: LoopPass) -> bool {
    &&& exists|i: int|
        0 <= i < rows.len() && of_workflow(wf, #[trigger] rows[i]) && rows[i].at == p.at
    &&& p.gen_tokens == tokens_upto(rows, wf, p.at, rows.len() as int)
    &&& p.wall_ms == wall_upto(rows, wf, p.at, rows.len() as int)
}

/// One of the passes was recorded at a time.
pub open spec fn has_pass(passes: Seq<LoopPass>, at: i64) -> bool {
    exists|k: int| 0 <= k < passes.len() && (#[trigger] passes[k]).at == at
}

/// The passes of a workflow, the latest first.
pub open spec fn are_passes(rows: Seq<MatrixRow>, wf: Seq<char>, passes: Seq<LoopPass>) -> bool {
    &&& forall|k: int| 0 <= k < passes.len() ==> is_pass(rows, wf, #[trigger] passes[k])
    &&& forall|j: int, k: int|
        0 <= j < k < passes.len() ==> (#[trigger] passes[j]).at > (#[trigger] passes[k]).at
    &&& forall|i: int|
        0 <= i < rows.len() && of_workflow(wf, #[trigger] rows[i]) ==> has_pass(passes, rows[i].at)
}

fn belongs(wf: &str, r: &MatrixRow) -> (b: bool)
    ensures
        b == of_workflow(wf@, *r),
{
    match &r.workflow_id {
        Some(id) => r.tok_s.is_some() && same(id.as_str(), wf),
        None => false,
    }
}

fn pass_at(rows: &Vec<MatrixRow>, wf: &str, at: i64) -> (p: LoopPass)
    requires
        all_tokens_upto(rows@, rows@.len() as int) <= u64::MAX,
        all_wall_upto(rows@, rows@.len() as int) <= u64::MAX,
    ensures
        p.at == at,
        p.gen_tokens == tokens_upto(rows@, wf@, at, rows@.len() as int),
        p.wall_ms == wall_upto(rows@, wf@, at, rows@.len() as int),
{
    let mut gen_tokens: u64 = 0;
    let mut wall_ms: u64 = 0;
    let mut i: usize = 0;
    while i < rows.len()
        invariant
            all_tokens_upto(rows@, rows@.len() as int) <= u64::MAX,
            all_wall_upto(rows@, rows@.len() as int) <= u64::MAX,
            i <= rows@.len(),
            gen_tokens == tokens_upto(rows@, wf@, at, i as int),
            wall_ms == wall_upto(rows@, wf@, at, i as int),
        decreases rows@.len() - i,
    {
        proof {
            lemma_pass_sums(rows@, wf@, at, i + 1);
            lemma_all_sums(rows@, i + 1);
        }
        if belongs(wf, &rows[i]) && rows[i].at == at {
            match rows[i].gen_tokens {
                Some(g) => {
                    gen_tokens = gen_tokens + g;
                },
                None => {},
            }
            wall_ms = wall_ms + rows[i].wall_ms;
        }
        i = i + 1;
    }
    LoopPass { at, gen_tokens, wall_ms }
}

/// The passes of a workflow, the latest first.
pub fn workflow_loop_passes(rows: &Vec<MatrixRow>, workflow_id: &str) -> (r: Vec<LoopPass>)
    requires
        all_tokens_upto(rows@, rows@.len() as int) <= u64::MAX,
        all_wall_upto(rows@, rows@.len() as int) <= u64::MAX,
    ensures
        are_passes(rows@, workflow_id@, r@),
{
    let mut r: Vec<LoopPass> = Vec::new();
    let mut i: usize = 0;
    while i < rows.len()
        invariant
            all_tokens_upto(rows@, rows@.len() as int) <= u64::MAX,
            all_wall_upto(rows@, rows@.len() as int) <= u64::MAX,
            i <= rows@.len(),
            forall|k: int| 0 <= k < r@.len() ==> is_pass(rows@, workflow_id@, #[trigger] r@[k]),
            forall|j: int, k: int|
                0 <= j < k < r@.len() ==> (#[trigger] r@[j]).at > (#[trigger] r@[k]).at,
            forall|m: int|
                0 <= m < i && of_workflow(workflow_id@, #[trigger] rows@[m]) ==> has_pass(
                    r@,
                    rows@[m].at,
                ),
        decreases rows@.len() - i,
    {
        let ghost before = r@;
        let ghost mut slot: int = 0;
        if belongs(workflow_id, &rows[i]) {
            let at = rows[i].at;
            let mut k: usize = 0;
            while k < r.len() && r[k].at > at
                invariant
                    r@ == before,
                    k <= r@.len(),
                    forall|j: int| 0 <= j < k ==> (#[trigger] r@[j]).at > at,
                decreases r@.len() - k,
            {
                k = k + 1;
            }
            if k < r.len() && r[k].at == at {
                assert(has_pass(r@, at));
            } else {
                r.insert(k, pass_at(rows, workflow_id, at));
                proof {
                    slot = k as int;
                    assert(r@[k as int].at == at);
                    assert(has_pass(r@, at));
                    assert(of_workflow(workflow_id@, rows@[i as int]));
                    assert forall|j: int| 0 <= j < r@.len() implies is_pass(
                        rows@,
                        workflow_id@,
                        #[trigger] r@[j],
                    ) by {
                        if j < k {
                            assert(r@[j] == before[j]);
                        } else if j > k {
                            assert(r@[j] == before[j - 1]);
                        }
                    }
                    assert forall|a: int, b: int| 0 <= a < b < r@.len() implies (
                    #[trigger] r@[a]).at > (#[trigger] r@[b]).at by {
                        let x = if a < k {
                            before[a].at
                        } else if a == k {
                            at
                        } else {
                            before[a - 1].at
                        };
                        let y = if b < k {
                            before[b].at
                        } else if b == k {
                            at
                        } else {
                            before[b - 1].at
                        };
                        assert(r@[a].at == x && r@[b].at == y);
                        if a == k && k < before.len() {
                            assert(before[k as int].at <= at && before[k as int].at != at);
                            if b - 1 > k {
                                assert(before[k as int].at > before[b - 1].at);
                            }
                        }
                    }
                }
            }
        }
        proof {
            assert forall|m: int|
                0 <= m < i + 1 && of_workflow(workflow_id@, #[trigger] rows@[m]) implies has_pass(
                r@,
                rows@[m].at,
            ) by {
                if m < i {
                    assert(has_pass(before, rows@[m].at));
                    let k = choose|k: int|
                        0 <= k < before.len() && (#[trigger] before[k]).at == rows@[m].at;
                    if r@.len() == before.len() {
                        assert(r@[k] == before[k]);
                    } else if k < slot {
                        assert(r@[k] == before[k]);
                    } else {
                        assert(r@[k + 1] == before[k]);
                    }
                }
            }
        }
        i = i + 1;
    }
    r
}

/// A live measurement of a running engine.
#[derive(Debug, Clone, PartialEq)]
pub struct BenchRow {
    pub id: i64,
    pub engine: String,
    pub host: String,
    pub port: u16,
    pub model: String,
    pub ctx: u32,
    /// Generated tokens per second.
    pub tps: Measure,
    /// Unix time in seconds.
    pub at: i64,
    pub hardware_profile_id: Option<i64>,
    pub engine_version: Option<String>,
    pub prompt_tps: Option<Measure>,
    pub ttft_ms: Option<u64>,
}

impl BenchRow {
    /// A new measurement, with the profile of the machine that it was taken on
    /// and the version of the engine.
    pub fn with_provenance(
        hardware_profile_id: Option<i64>,
        engine: &str,
        host: &str,
        port: u16,
        model: &str,
        ctx: u32,
        tps: Measure,
        at: i64,
        engine_version: Option<String>,
        prompt_tps: Option<Measure>,
        ttft_ms: Option<u64>,
    ) -> (r: BenchRow)
        ensures
            r.id == 0,
            r.engine@ == engine@,
            r.host@ == host@,
            r.port == port,
            r.model@ == model@,
            r.ctx == ctx,
            r.tps == tps,
            r.at == at,
            r.hardware_profile_id == hardware_profile_id,
            opt_text(r.engine_version) == opt_text(engine_version),
            r.prompt_tps == prompt_tps,
            r.ttft_ms == ttft_ms,
    {
        BenchRow {
            id: 0,
            engine: owned(engine),
            host: owned(host),
            port,
            model: owned(model),
            ctx,
            tps,
            at,
            hardware_profile_id,
            engine_version,
            prompt_tps,
            ttft_ms,
        }
    }
}

} // verus!
