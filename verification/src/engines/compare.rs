//! Blind comparison on top of the bench grid.
//!
//! Each candidate (engine × model) gets an opaque trial id in an order that a
//! seed scrambles. Trials are listed under those ids; the verdict names the
//! winner. The scores themselves are measured quantities that the caller
//! computes; grouping, blinding, ranking and the report are done here.
use vstd::prelude::*;
use vstd::string::StringExecFns;

use crate::engines::scoring::{shuffle, shuffled_indices};
use crate::measure::Measure;
use crate::order::{in_order, is_permutation, lemma_in_order, stable_order, Ranking};
use crate::store::bench::MatrixRow;
use crate::text::{
    clone_opt, decimal, decimal_of, decimal_padded, decimal_padded_of, has_text, opt_text, owned,
    same, str_trim, texts, trim,
};

verus! {

/// One scored trial, under its opaque id.
#[derive(Debug, Clone, PartialEq)]
pub struct ScoredTrial {
    pub trial: String,
    pub task: String,
    pub run: u32,
    pub ok: bool,
    pub error: Option<String>,
    pub gen_tokens: Option<u64>,
    pub prompt_tokens: Option<u64>,
    pub tok_s: Option<Measure>,
    pub tok_s_kind: String,
    pub wall_ms: u64,
    pub score: Measure,
    pub output: String,
}

/// A candidate's standing.
#[derive(Debug, Clone, PartialEq)]
pub struct CandidateStanding {
    pub trial: String,
    pub engine: String,
    pub model: String,
    pub ctx: u32,
    pub ok_runs: u32,
    pub trials: u32,
    pub mean_tok_s: Option<Measure>,
    pub mean_score: Measure,
    /// The first failure, where no run succeeded.
    pub failure: Option<String>,
    pub verdict: Option<String>,
}

#[derive(Debug, Clone, PartialEq)]
pub struct CompareReport {
    pub procedure: String,
    pub tasks: Vec<String>,
    pub candidates: Vec<CandidateStanding>,
    pub trials: Vec<ScoredTrial>,
    pub verdict: String,
}

/// The key of a row's candidate.
pub open spec fn candidate_key(r: MatrixRow) -> Seq<char> {
    r.engine@ + " × "@ + r.model@
}

/// The different texts of a list, in the order in which they first stand.
pub open spec fn distinct(s: Seq<Seq<char>>) -> Seq<Seq<char>>
    decreases s.len(),
{
    if s.len() == 0 {
        Seq::empty()
    } else {
        let rest = distinct(s.drop_last());
        if rest.contains(s.last()) {
            rest
        } else {
            rest.push(s.last())
        }
    }
}

/// The keys of the rows.
pub open spec fn row_keys(rows: Seq<MatrixRow>) -> Seq<Seq<char>> {
    Seq::new(rows.len(), |i: int| candidate_key(rows[i]))
}

/// The candidates, in the order in which they first stand.
pub open spec fn candidate_keys(rows: Seq<MatrixRow>) -> Seq<Seq<char>> {
    distinct(row_keys(rows))
}

/// The positions of the first `n` rows of a candidate.
pub open spec fn rows_upto(rows: Seq<MatrixRow>, key: Seq<char>, n: int) -> Seq<int>
    decreases n,
{
    if n <= 0 {
        Seq::empty()
    } else {
        let rest = rows_upto(rows, key, n - 1);
        if candidate_key(rows[n - 1]) == key {
            rest.push(n - 1)
        } else {
            rest
        }
    }
}

/// The positions of a candidate's rows.
pub open spec fn rows_of(rows: Seq<MatrixRow>, key: Seq<char>) -> Seq<int> {
    rows_upto(rows, key, rows.len() as int)
}

/// The opaque id of the candidate that was drawn at a position.
pub open spec fn trial_text(pos: nat) -> Seq<char> {
    "trial-"@ + decimal_padded(pos + 1, 3)
}

/// The row's sample was taken.
pub open spec fn row_ok(r: MatrixRow) -> bool {
    r.verdict@ == "RUNNING"@
}

/// What a failed row says.
pub open spec fn failure_text(r: MatrixRow) -> Seq<char> {
    if trim(r.summary@).len() == 0 {
        r.verdict@
    } else {
        r.verdict@ + ": "@ + trim(r.summary@)
    }
}

/// The first failure among the rows at the first `n` of a list of positions.
pub open spec fn first_failure(rows: Seq<MatrixRow>, at: Seq<int>, n: int) -> Option<Seq<char>>
    decreases n,
{
    if n <= 0 {
        None
    } else {
        match first_failure(rows, at, n - 1) {
            Some(f) => Some(f),
            None => if row_ok(rows[at[n - 1]]) {
                None
            } else {
                Some(failure_text(rows[at[n - 1]]))
            },
        }
    }
}

/// How many of the rows at the first `n` of a list of positions are ok.
pub open spec fn ok_count(rows: Seq<MatrixRow>, at: Seq<int>, n: int) -> nat
    decreases n,
{
    if n <= 0 {
        0
    } else {
        ok_count(rows, at, n - 1) + if row_ok(rows[at[n - 1]]) {
            1nat
        } else {
            0
        }
    }
}

/// A candidate before it is scored.
#[derive(Debug, Clone)]
pub struct Candidate {
    /// Its opaque id.
    pub trial: String,
    /// The positions of its rows.
    pub rows: Vec<usize>,
    pub engine: String,
    pub model: String,
    pub ctx: u32,
    pub ok_runs: u32,
    pub failure: Option<String>,
}

/// The positions as numbers.
pub open spec fn positions(v: Seq<usize>) -> Seq<int> {
    Seq::new(v.len(), |i: int| v[i] as int)
}

/// The candidate holds the rows of a key; engine, model and context are those
/// of the last.
pub open spec fn is_candidate(c: Candidate, rows: Seq<MatrixRow>, key: Seq<char>) -> bool {
    let at = rows_of(rows, key);
    &&& positions(c.rows@) == at
    &&& at.len() > 0
    &&& c.engine@ == rows[at.last()].engine@
    &&& c.model@ == rows[at.last()].model@
    &&& c.ctx == rows[at.last()].ctx
    &&& c.ok_runs == ok_count(rows, at, at.len() as int)
    &&& opt_text(c.failure) == if c.ok_runs == 0 {
        first_failure(rows, at, at.len() as int)
    } else {
        None
    }
}

/// The candidates of the rows, in the order in which they first stand; the one
/// that the seed draws at position `k` has the id of that position.
pub open spec fn are_candidates(cs: Seq<Candidate>, rows: Seq<MatrixRow>, seed: u64) -> bool {
    let keys = candidate_keys(rows);
    let drawn = shuffle(keys.len(), seed);
    &&& cs.len() == keys.len()
    &&& forall|c: int| 0 <= c < cs.len() ==> is_candidate(#[trigger] cs[c], rows, keys[c])
    &&& forall|k: int|
        0 <= k < drawn.len() ==> cs[#[trigger] drawn[k] as int].trial@ == trial_text(k as nat)
}

proof fn lemma_distinct(s: Seq<Seq<char>>)
    ensures
        distinct(s).no_duplicates(),
        distinct(s).len() <= s.len(),
        forall|x: Seq<char>| distinct(s).contains(x) <==> s.contains(x),
    decreases s.len(),
{
    if s.len() > 0 {
        let t = s.drop_last();
        lemma_distinct(t);
        let rest = distinct(t);
        assert forall|x: Seq<char>| distinct(s).contains(x) <==> s.contains(x) by {
            if s.contains(x) {
                let i = choose|i: int| 0 <= i < s.len() && s[i] == x;
                if i < s.len() - 1 {
                    assert(t[i] == x);
                    assert(t.contains(x));
                    assert(rest.contains(x));
                    let j = choose|j: int| 0 <= j < rest.len() && rest[j] == x;
                    assert(distinct(s)[j] == x);
                } else if !rest.contains(x) {
                    assert(distinct(s).last() == x);
                }
            }
            if distinct(s).contains(x) {
                if rest.contains(x) {
                    assert(t.contains(x));
                    let j = choose|j: int| 0 <= j < t.len() && t[j] == x;
                    assert(s[j] == x);
                } else {
                    assert(s[s.len() - 1] == x) by {
                        let j = choose|j: int| 0 <= j < distinct(s).len() && distinct(s)[j] == x;
                        if j < rest.len() {
                            assert(rest[j] == x);
                        }
                    }
                }
            }
        }
    } else {
        assert(distinct(s).len() == 0);
    }
}

proof fn lemma_rows_of(rows: Seq<MatrixRow>, key: Seq<char>, n: int)
    requires
        0 <= n <= rows.len(),
    ensures
        rows_upto(rows, key, n).len() <= n,
        forall|k: int|
            0 <= k < rows_upto(rows, key, n).len() ==> 0 <= #[trigger] rows_upto(rows, key, n)[k] < n,
        (exists|i: int| 0 <= i < n && candidate_key(#[trigger] rows[i]) == key) ==> rows_upto(
            rows,
            key,
            n,
        ).len() > 0,
    decreases n,
{
    if n > 0 {
        lemma_rows_of(rows, key, n - 1);
        if exists|i: int| 0 <= i < n && candidate_key(#[trigger] rows[i]) == key {
            let i = choose|i: int| 0 <= i < n && candidate_key(#[trigger] rows[i]) == key;
            if i < n - 1 {
                assert(candidate_key(rows[i]) == key);
            }
        }
    }
}

proof fn lemma_ok_count(rows: Seq<MatrixRow>, at: Seq<int>, n: int)
    requires
        0 <= n,
    ensures
        ok_count(rows, at, n) <= n,
    decreases n,
{
    if n > 0 {
        lemma_ok_count(rows, at, n - 1);
    }
}

fn key_of(r: &MatrixRow) -> (k: String)
    ensures
        k@ == candidate_key(*r),
{
    let mut k = owned(r.engine.as_str());
    k.append(" × ");
    k.append(r.model.as_str());
    k
}

/// The different texts of a list, in the order in which they first stand.
pub fn distinct_texts(v: &Vec<String>) -> (r: Vec<String>)
    ensures
        texts(r@) == distinct(texts(v@)),
{
    let ghost s = texts(v@);
    let mut r: Vec<String> = Vec::new();
    let mut i: usize = 0;
    assert(s.take(0) =~= Seq::<Seq<char>>::empty());
    assert(texts(r@) =~= Seq::<Seq<char>>::empty());
    while i < v.len()
        invariant
            s == texts(v@),
            i <= v@.len(),
            texts(r@) == distinct(s.take(i as int)),
        decreases v@.len() - i,
    {
        assert(s.take(i + 1).drop_last() =~= s.take(i as int));
        assert(s.take(i + 1).last() == v@[i as int]@);
        let ghost before = texts(r@);
        if !has_text(&r, v[i].as_str()) {
            r.push(owned(v[i].as_str()));
            assert(texts(r@) =~= before.push(v@[i as int]@));
        }
        i = i + 1;
    }
    assert(s.take(i as int) =~= s);
    r
}

fn keys_of(rows: &Vec<MatrixRow>) -> (r: Vec<String>)
    ensures
        texts(r@) == row_keys(rows@),
{
    let mut r: Vec<String> = Vec::new();
    let mut i: usize = 0;
    while i < rows.len()
        invariant
            i <= rows@.len(),
            r@.len() == i,
            forall|j: int| 0 <= j < i ==> (#[trigger] r@[j])@ == candidate_key(rows@[j]),
        decreases rows@.len() - i,
    {
        r.push(key_of(&rows[i]));
        i = i + 1;
    }
    assert(texts(r@) =~= row_keys(rows@));
    r
}

fn failure_of(r: &MatrixRow) -> (s: String)
    ensures
        s@ == failure_text(*r),
{
    let summary = str_trim(r.summary.as_str());
    if summary.as_str().is_empty() {
        owned(r.verdict.as_str())
    } else {
        let mut s = owned(r.verdict.as_str());
        s.append(": ");
        s.append(summary.as_str());
        s
    }
}

fn build_candidate(rows: &Vec<MatrixRow>, keys: &Vec<String>, key: &str) -> (c: Candidate)
    requires
        rows@.len() <= u32::MAX,
        texts(keys@) == row_keys(rows@),
        row_keys(rows@).contains(key@),
    ensures
        is_candidate(c, rows@, key@),
{
    let mut at: Vec<usize> = Vec::new();
    let mut ok_runs: u32 = 0;
    let mut failure: Option<String> = None;
    let ghost n = rows@.len() as int;
    let mut i: usize = 0;
    let len = rows.len();
    proof {
        assert(texts(keys@).len() == rows@.len());
    }
    while i < len
        invariant
            len == rows@.len(),
            len <= u32::MAX,
            texts(keys@) == row_keys(rows@),
            keys@.len() == rows@.len(),
            i <= len,
            positions(at@) == rows_upto(rows@, key@, i as int),
            ok_runs == ok_count(rows@, positions(at@), at@.len() as int),
            ok_runs <= at@.len() <= i,
            opt_text(failure) == first_failure(rows@, positions(at@), at@.len() as int),
        decreases len - i,
    {
        assert(texts(keys@)[i as int] == keys@[i as int]@);
        if same(keys[i].as_str(), key) {
            let ghost before = positions(at@);
            let ghost m = at@.len() as int;
            at.push(i);
            assert(positions(at@) =~= before.push(i as int));
            proof {
                lemma_prefix_same(rows@, before, positions(at@), m);
            }
            if same(rows[i].verdict.as_str(), "RUNNING") {
                ok_runs = ok_runs + 1;
            } else if failure.is_none() {
                failure = Some(failure_of(&rows[i]));
            }
        }
        i = i + 1;
    }
    proof {
        let k = choose|k: int| 0 <= k < row_keys(rows@).len() && row_keys(rows@)[k] == key@;
        assert(candidate_key(rows@[k]) == key@);
        lemma_rows_of(rows@, key@, n);
        assert(positions(at@).len() == at@.len());
    }
    let last = at[at.len() - 1];
    assert(positions(at@).last() == last);
    Candidate {
        trial: String::new(),
        rows: at,
        engine: owned(rows[last].engine.as_str()),
        model: owned(rows[last].model.as_str()),
        ctx: rows[last].ctx,
        ok_runs,
        failure: if ok_runs == 0 {
            failure
        } else {
            None
        },
    }
}

proof fn lemma_prefix_same(rows: Seq<MatrixRow>, a: Seq<int>, b: Seq<int>, n: int)
    requires
        0 <= n <= a.len() <= b.len(),
        forall|i: int| 0 <= i < n ==> a[i] == b[i],
    ensures
        ok_count(rows, a, n) == ok_count(rows, b, n),
        first_failure(rows, a, n) == first_failure(rows, b, n),
    decreases n,
{
    if n > 0 {
        lemma_prefix_same(rows, a, b, n - 1);
    }
}

fn trial_name(pos: usize) -> (r: String)
    requires
        pos < u64::MAX,
    ensures
        r@ == trial_text(pos as nat),
{
    let mut r = owned("trial-");
    r.append(decimal_padded_of(pos as u64 + 1, 3).as_str());
    r
}

/// Groups the rows into candidates and draws their opaque ids.
pub fn blind_candidates(rows: &Vec<MatrixRow>, seed: u64) -> (cs: Vec<Candidate>)
    requires
        rows@.len() <= u32::MAX,
    ensures
        are_candidates(cs@, rows@, seed),
{
    let keys = keys_of(rows);
    let names = distinct_texts(&keys);
    let ghost ks = candidate_keys(rows@);
    proof {
        lemma_distinct(row_keys(rows@));
        assert(texts(names@).len() == names@.len());
    }
    let drawn = shuffled_indices(names.len(), seed);
    let n = names.len();
    let mut cs: Vec<Candidate> = Vec::new();
    let mut c: usize = 0;
    while c < n
        invariant
            n == names@.len(),
            rows@.len() <= u32::MAX,
            texts(keys@) == row_keys(rows@),
            ks == candidate_keys(rows@),
            texts(names@) == ks,
            c <= n,
            cs@.len() == c,
            forall|x: Seq<char>| ks.contains(x) <==> row_keys(rows@).contains(x),
            forall|k: int| 0 <= k < c ==> is_candidate(#[trigger] cs@[k], rows@, ks[k]),
        decreases n - c,
    {
        assert(texts(names@)[c as int] == names@[c as int]@);
        assert(ks.contains(names@[c as int]@));
        cs.push(build_candidate(rows, &keys, names[c].as_str()));
        c = c + 1;
    }
    let mut k: usize = 0;
    while k < n
        invariant
            n == names@.len(),
            n <= u32::MAX,
            ks == candidate_keys(rows@),
            texts(names@) == ks,
            cs@.len() == n,
            k <= n,
            drawn@ == shuffle(ks.len(), seed),
            ks.len() == n,
            is_permutation(drawn@, n as nat),
            forall|j: int| 0 <= j < n ==> is_candidate(#[trigger] cs@[j], rows@, ks[j]),
            forall|j: int|
                0 <= j < k ==> cs@[#[trigger] drawn@[j] as int].trial@ == trial_text(j as nat),
        decreases n - k,
    {
        let at = drawn[k];
        assert(drawn@[k as int] < n);
        let ghost before = cs@;
        let name = trial_name(k);
        let old_c = &cs[at];
        let fresh = Candidate {
            trial: name,
            rows: copy_positions(&old_c.rows),
            engine: owned(old_c.engine.as_str()),
            model: owned(old_c.model.as_str()),
            ctx: old_c.ctx,
            ok_runs: old_c.ok_runs,
            failure: clone_opt(&old_c.failure),
        };
        assert(is_candidate(fresh, rows@, ks[at as int])) by {
            assert(is_candidate(before[at as int], rows@, ks[at as int]));
        }
        cs.set(at, fresh);
        assert forall|j: int| 0 <= j < k + 1 implies cs@[#[trigger] drawn@[j] as int].trial@
            == trial_text(j as nat) by {
            if j < k {
                assert(drawn@[j] != drawn@[k as int]);
                assert(drawn@[j] < n);
                assert(before[drawn@[j] as int].trial@ == trial_text(j as nat));
            }
        }
        k = k + 1;
    }
    cs
}

fn copy_positions(v: &Vec<usize>) -> (r: Vec<usize>)
    ensures
        r@ == v@,
{
    let mut r: Vec<usize> = Vec::new();
    let mut i: usize = 0;
    while i < v.len()
        invariant
            i <= v@.len(),
            r@ == v@.take(i as int),
        decreases v@.len() - i,
    {
        r.push(v[i]);
        assert(v@.take(i + 1) =~= v@.take(i as int).push(v@[i as int]));
        i = i + 1;
    }
    assert(v@.take(i as int) =~= v@);
    r
}


/// What was measured of a candidate: its mean score, its mean speed, and both
/// as the report writes them.
#[derive(Debug, Clone, PartialEq)]
pub struct CandidateMarks {
    pub mean_score: Measure,
    pub mean_tok_s: Option<Measure>,
    pub score_text: String,
    pub tok_s_text: String,
}

/// The means over a candidate's rows, as doubles and as the report writes them:
/// of the scores of all its rows, and of the speeds over those that ran. They
/// count only where some row ran.
#[derive(Debug, Clone, PartialEq)]
pub struct Means {
    pub score: Measure,
    pub score_text: String,
    pub tok_s: Measure,
    pub tok_s_text: String,
}

/// The marks of a candidate: its means where some row ran; else it has no
/// speed, and its mean score is zero.
pub open spec fn is_marks(m: CandidateMarks, c: Candidate, means: Means) -> bool {
    if c.ok_runs > 0 {
        &&& m.mean_score == means.score
        &&& m.mean_tok_s == Some(means.tok_s)
        &&& m.score_text@ == means.score_text@
        &&& m.tok_s_text@ == means.tok_s_text@
    } else {
        &&& m.mean_score.bits == 0
        &&& m.mean_tok_s is None
        &&& m.score_text@ == "0.000"@
        &&& m.tok_s_text@ == "0.0"@
    }
}

/// The marks of the candidates.
pub open spec fn are_marks(
    marks: Seq<CandidateMarks>,
    cs: Seq<Candidate>,
    means: Seq<Means>,
) -> bool {
    marks.len() == cs.len() && forall|c: int|
        0 <= c < cs.len() ==> is_marks(#[trigger] marks[c], cs[c], means[c])
}

fn marks_of(cs: &Vec<Candidate>, means: &Vec<Means>) -> (r: Vec<CandidateMarks>)
    requires
        means@.len() == cs@.len(),
    ensures
        are_marks(r@, cs@, means@),
{
    let mut r: Vec<CandidateMarks> = Vec::new();
    let mut i: usize = 0;
    while i < cs.len()
        invariant
            means@.len() == cs@.len(),
            i <= cs@.len(),
            r@.len() == i,
            forall|c: int| 0 <= c < i ==> is_marks(#[trigger] r@[c], cs@[c], means@[c]),
        decreases cs@.len() - i,
    {
        let m = if cs[i].ok_runs > 0 {
            CandidateMarks {
                mean_score: means[i].score,
                mean_tok_s: Some(means[i].tok_s),
                score_text: owned(means[i].score_text.as_str()),
                tok_s_text: owned(means[i].tok_s_text.as_str()),
            }
        } else {
            CandidateMarks {
                mean_score: Measure { bits: 0 },
                mean_tok_s: None,
                score_text: owned("0.000"),
                tok_s_text: owned("0.0"),
            }
        };
        r.push(m);
        i = i + 1;
    }
    r
}

/// A speed, or zero.
pub open spec fn speed_or_zero(m: Option<Measure>) -> Measure {
    match m {
        Some(v) => v,
        None => Measure { bits: 0 },
    }
}

/// Compares candidates: the higher mean score first, then the higher speed.
pub open spec fn better(marks: Seq<CandidateMarks>) -> spec_fn(int, int) -> bool {
    |i: int, j: int|
        {
            let a = marks[i].mean_score.rank();
            let b = marks[j].mean_score.rank();
            a > b || (a == b && speed_or_zero(marks[i].mean_tok_s).rank() > speed_or_zero(
                marks[j].mean_tok_s,
            ).rank())
        }
}

/// Candidates by mean score and speed.
struct Merit {
    score: Vec<Measure>,
    speed: Vec<Measure>,
}

impl Ranking for Merit {
    closed spec fn count(&self) -> nat {
        if self.score@.len() <= self.speed@.len() {
            self.score@.len()
        } else {
            self.speed@.len()
        }
    }

    closed spec fn before(&self, i: int, j: int) -> bool {
        let a = self.score@[i].rank();
        let b = self.score@[j].rank();
        a > b || (a == b && self.speed@[i].rank() > self.speed@[j].rank())
    }

    proof fn weak_order(&self, i: int, j: int, k: int) {
    }

    fn len(&self) -> usize {
        if self.score.len() <= self.speed.len() {
            self.score.len()
        } else {
            self.speed.len()
        }
    }

    fn comes_before(&self, i: usize, j: usize) -> bool {
        let a = self.score[i];
        let b = self.score[j];
        b.ranks_below(a) || (!a.ranks_below(b) && self.speed[j].ranks_below(self.speed[i]))
    }
}

/// The candidates, best first.
pub fn ranked(marks: &Vec<CandidateMarks>) -> (p: Vec<usize>)
    ensures
        in_order(p@, marks@.len(), better(marks@)),
{
    let mut score: Vec<Measure> = Vec::new();
    let mut speed: Vec<Measure> = Vec::new();
    let mut i: usize = 0;
    while i < marks.len()
        invariant
            i <= marks@.len(),
            score@.len() == i,
            speed@.len() == i,
            forall|j: int| 0 <= j < i ==> #[trigger] score@[j] == marks@[j].mean_score,
            forall|j: int|
                0 <= j < i ==> #[trigger] speed@[j] == speed_or_zero(marks@[j].mean_tok_s),
        decreases marks@.len() - i,
    {
        score.push(marks[i].mean_score);
        speed.push(
            match marks[i].mean_tok_s {
                Some(v) => v,
                None => Measure { bits: 0 },
            },
        );
        i = i + 1;
    }
    let keys = Merit { score, speed };
    let p = stable_order(&keys);
    proof {
        let order = better(marks@);
        assert forall|i: int, j: int|
            0 <= i < keys.count() && 0 <= j < keys.count() implies #[trigger] keys.before(i, j)
            == order(i, j) by {
            assert(keys.score@[i] == marks@[i].mean_score);
            assert(keys.score@[j] == marks@[j].mean_score);
            assert(keys.speed@[i] == speed_or_zero(marks@[i].mean_tok_s));
            assert(keys.speed@[j] == speed_or_zero(marks@[j].mean_tok_s));
        }
        lemma_in_order(&keys, p@, order);
    }
    p
}

/// The mark of a candidate in the verdict.
pub open spec fn medal(p: Seq<usize>, c: int) -> Option<Seq<char>> {
    if p.len() > 0 && p[0] == c {
        Some("BEST"@)
    } else if p.len() > 1 && p[1] == c {
        Some("runner-up"@)
    } else {
        None
    }
}

/// The verdict on a ranked list of candidates.
pub open spec fn verdict_text(
    cs: Seq<Candidate>,
    marks: Seq<CandidateMarks>,
    p: Seq<usize>,
) -> Seq<char> {
    if p.len() == 0 {
        "no trials to compare"@
    } else {
        let b = p[0] as int;
        cs[b].trial@ + " wins this grid with a mean score of "@ + marks[b].score_text@ + " ("@
            + marks[b].tok_s_text@ + " tok/s avg, "@ + decimal(cs[b].ok_runs as nat) + "/"@
            + decimal(cs[b].rows@.len()) + " runs OK)."@ + if p.len() > 1 {
            " runner-up "@ + cs[p[1] as int].trial@ + " ("@ + marks[p[1] as int].score_text@ + ")"@
        } else {
            Seq::empty()
        }
    }
}

/// The verdict on a ranked list of candidates.
pub fn choose_verdict(cs: &Vec<Candidate>, marks: &Vec<CandidateMarks>, p: &Vec<usize>) -> (r:
    String)
    requires
        cs@.len() == marks@.len(),
        is_permutation(p@, cs@.len()),
    ensures
        r@ == verdict_text(cs@, marks@, p@),
{
    if p.len() == 0 {
        return owned("no trials to compare");
    }
    let b = p[0];
    assert(p@[0] < cs@.len());
    let mut r = owned(cs[b].trial.as_str());
    r.append(" wins this grid with a mean score of ");
    r.append(marks[b].score_text.as_str());
    r.append(" (");
    r.append(marks[b].tok_s_text.as_str());
    r.append(" tok/s avg, ");
    r.append(decimal_of(cs[b].ok_runs as u64).as_str());
    r.append("/");
    r.append(decimal_of(cs[b].rows.len() as u64).as_str());
    r.append(" runs OK).");
    let mut rest = String::new();
    if p.len() > 1 {
        let s = p[1];
        assert(p@[1] < cs@.len());
        rest = owned(" runner-up ");
        rest.append(cs[s].trial.as_str());
        rest.append(" (");
        rest.append(marks[s].score_text.as_str());
        rest.append(")");
    }
    r.append(rest.as_str());
    r
}

/// The standing is that of a candidate.
pub open spec fn is_standing(
    s: CandidateStanding,
    c: Candidate,
    m: CandidateMarks,
    medal: Option<Seq<char>>,
) -> bool {
    &&& s.trial@ == c.trial@
    &&& s.engine@ == c.engine@
    &&& s.model@ == c.model@
    &&& s.ctx == c.ctx
    &&& s.ok_runs == c.ok_runs
    &&& s.trials == c.rows@.len()
    &&& s.mean_tok_s == m.mean_tok_s
    &&& s.mean_score == m.mean_score
    &&& opt_text(s.failure) == opt_text(c.failure)
    &&& opt_text(s.verdict) == medal
}

/// The trial is that of a row, under its candidate's id.
pub open spec fn is_trial(t: ScoredTrial, id: Seq<char>, r: MatrixRow, score: Measure) -> bool {
    &&& t.trial@ == id
    &&& t.task@ == r.task@
    &&& t.run == r.run
    &&& t.ok == row_ok(r)
    &&& opt_text(t.error) == if row_ok(r) {
        None
    } else {
        Some(r.summary@)
    }
    &&& t.gen_tokens == r.gen_tokens
    &&& t.prompt_tokens == r.prompt_tokens
    &&& t.tok_s == r.tok_s
    &&& t.tok_s_kind@ == r.tok_s_kind@
    &&& t.wall_ms == r.wall_ms
    &&& t.score == score
    &&& t.output@ == r.output@
}

/// The rows of the first `n` candidates, candidate by candidate: the candidate
/// and the position of the row.
pub open spec fn grouped(cs: Seq<Candidate>, n: int) -> Seq<(int, int)>
    decreases n,
{
    if n <= 0 {
        Seq::empty()
    } else {
        grouped(cs, n - 1) + Seq::new(
            cs[n - 1].rows@.len(),
            |k: int| ((n - 1) as int, cs[n - 1].rows@[k] as int),
        )
    }
}

/// How the scores come about, for people.
pub open spec fn procedure_text() -> Seq<char> {
    "score = 0.6·quality + 0.4·throughput; quality = 0.25·variety + 0.75·(1 − bigram repetition) on the output; throughput = native/wall tok/s normalized to the task group's max; a candidate's standing is the mean of its trial scores; the verdict names the top mean score (tie broken by mean tok/s)."@
}

/// The score of a row: what was measured, or zero for a failed trial.
pub open spec fn score_of(r: MatrixRow, score: Measure) -> Measure {
    if row_ok(r) {
        score
    } else {
        Measure { bits: 0 }
    }
}

/// The report on blinded and ranked candidates.
pub open spec fn is_report(
    r: CompareReport,
    rows: Seq<MatrixRow>,
    cs: Seq<Candidate>,
    scores: Seq<Measure>,
    marks: Seq<CandidateMarks>,
    p: Seq<usize>,
) -> bool {
    let flat = grouped(cs, cs.len() as int);
    &&& r.procedure@ == procedure_text()
    &&& texts(r.tasks@) == distinct(Seq::new(flat.len(), |k: int| rows[flat[k].1].task@))
    &&& r.candidates@.len() == cs.len()
    &&& forall|c: int|
        0 <= c < cs.len() ==> is_standing(#[trigger] r.candidates@[c], cs[c], marks[c], medal(p, c))
    &&& r.trials@.len() == flat.len()
    &&& forall|k: int|
        0 <= k < flat.len() ==> is_trial(
            #[trigger] r.trials@[k],
            cs[flat[k].0].trial@,
            rows[flat[k].1],
            score_of(rows[flat[k].1], scores[flat[k].1]),
        )
    &&& r.verdict@ == verdict_text(cs, marks, p)
}

/// The report on the rows, blinded by a seed and ranked by the marks.
pub open spec fn reports(
    r: CompareReport,
    rows: Seq<MatrixRow>,
    seed: u64,
    scores: Seq<Measure>,
    means: Seq<Means>,
) -> bool {
    exists|cs: Seq<Candidate>, marks: Seq<CandidateMarks>, p: Seq<usize>|
        {
            &&& are_candidates(cs, rows, seed)
            &&& are_marks(marks, cs, means)
            &&& in_order(p, marks.len(), better(marks))
            &&& #[trigger] is_report(r, rows, cs, scores, marks, p)
        }
}

fn build_trial(id: &str, r: &MatrixRow, score: Measure) -> (t: ScoredTrial)
    ensures
        is_trial(t, id@, *r, score_of(*r, score)),
{
    let ok = same(r.verdict.as_str(), "RUNNING");
    ScoredTrial {
        trial: owned(id),
        task: owned(r.task.as_str()),
        run: r.run,
        ok,
        error: if ok {
            None
        } else {
            Some(owned(r.summary.as_str()))
        },
        gen_tokens: r.gen_tokens,
        prompt_tokens: r.prompt_tokens,
        tok_s: r.tok_s,
        tok_s_kind: owned(r.tok_s_kind.as_str()),
        wall_ms: r.wall_ms,
        score: if ok {
            score
        } else {
            Measure { bits: 0 }
        },
        output: owned(r.output.as_str()),
    }
}

fn build_standing(c: &Candidate, m: &CandidateMarks, p: &Vec<usize>, at: usize) -> (s:
    CandidateStanding)
    requires
        c.rows@.len() <= u32::MAX,
    ensures
        is_standing(s, *c, *m, medal(p@, at as int)),
{
    CandidateStanding {
        trial: owned(c.trial.as_str()),
        engine: owned(c.engine.as_str()),
        model: owned(c.model.as_str()),
        ctx: c.ctx,
        ok_runs: c.ok_runs,
        trials: c.rows.len() as u32,
        mean_tok_s: m.mean_tok_s,
        mean_score: m.mean_score,
        failure: clone_opt(&c.failure),
        verdict: if p.len() > 0 && p[0] == at {
            Some(owned("BEST"))
        } else if p.len() > 1 && p[1] == at {
            Some(owned("runner-up"))
        } else {
            None
        },
    }
}

/// The rows of a candidate are rows.
proof fn lemma_candidate_rows(c: Candidate, rows: Seq<MatrixRow>, key: Seq<char>)
    requires
        is_candidate(c, rows, key),
    ensures
        c.rows@.len() <= rows.len(),
        forall|k: int| 0 <= k < c.rows@.len() ==> #[trigger] c.rows@[k] < rows.len(),
{
    lemma_rows_of(rows, key, rows.len() as int);
    assert(positions(c.rows@).len() == c.rows@.len());
    assert forall|k: int| 0 <= k < c.rows@.len() implies #[trigger] c.rows@[k] < rows.len() by {
        assert(positions(c.rows@)[k] == c.rows@[k]);
    }
}

/// Builds the blind report on the rows of a grid. `scores` holds the score of
/// each row that ran, `means` the means of each candidate, in the order in
/// which the candidates first stand.
pub fn report_from_rows(
    rows: &Vec<MatrixRow>,
    seed: u64,
    scores: &Vec<Measure>,
    means: &Vec<Means>,
) -> (r: CompareReport)
    requires
        rows@.len() <= u32::MAX,
        scores@.len() == rows@.len(),
        means@.len() == candidate_keys(rows@).len(),
    ensures
        reports(r, rows@, seed, scores@, means@),
{
    let cs = blind_candidates(rows, seed);
    let marks = marks_of(&cs, means);
    let p = ranked(&marks);
    let ghost keys = candidate_keys(rows@);
    let mut task_list: Vec<String> = Vec::new();
    let mut trials: Vec<ScoredTrial> = Vec::new();
    let mut candidates: Vec<CandidateStanding> = Vec::new();
    let mut c: usize = 0;
    while c < cs.len()
        invariant
            rows@.len() <= u32::MAX,
            scores@.len() == rows@.len(),
            marks@.len() == cs@.len(),
            keys == candidate_keys(rows@),
            are_candidates(cs@, rows@, seed),
            c <= cs@.len(),
            candidates@.len() == c,
            forall|j: int|
                0 <= j < c ==> is_standing(
                    #[trigger] candidates@[j],
                    cs@[j],
                    marks@[j],
                    medal(p@, j),
                ),
            trials@.len() == grouped(cs@, c as int).len(),
            task_list@.len() == trials@.len(),
            forall|k: int|
                0 <= k < trials@.len() ==> is_trial(
                    #[trigger] trials@[k],
                    cs@[grouped(cs@, c as int)[k].0].trial@,
                    rows@[grouped(cs@, c as int)[k].1],
                    score_of(
                        rows@[grouped(cs@, c as int)[k].1],
                        scores@[grouped(cs@, c as int)[k].1],
                    ),
                ),
            forall|k: int|
                0 <= k < task_list@.len() ==> (#[trigger] task_list@[k])@ == rows@[grouped(
                    cs@,
                    c as int,
                )[k].1].task@,
        decreases cs@.len() - c,
    {
        let cand = &cs[c];
        proof {
            assert(is_candidate(cs@[c as int], rows@, keys[c as int]));
            lemma_candidate_rows(cs@[c as int], rows@, keys[c as int]);
        }
        let ghost flat = grouped(cs@, c as int);
        let ghost all = grouped(cs@, c + 1);
        let ghost base = flat.len() as int;
        let mut k: usize = 0;
        while k < cand.rows.len()
            invariant
                *cand == cs@[c as int],
                c < cs@.len(),
                scores@.len() == rows@.len(),
                flat == grouped(cs@, c as int),
                all == grouped(cs@, c + 1),
                base == flat.len(),
                all == flat + Seq::new(
                    cand.rows@.len(),
                    |k: int| (c as int, cand.rows@[k] as int),
                ),
                forall|j: int| 0 <= j < cand.rows@.len() ==> #[trigger] cand.rows@[j] < rows@.len(),
                k <= cand.rows@.len(),
                trials@.len() == base + k,
                task_list@.len() == base + k,
                forall|j: int|
                    0 <= j < trials@.len() ==> is_trial(
                        #[trigger] trials@[j],
                        cs@[all[j].0].trial@,
                        rows@[all[j].1],
                        score_of(rows@[all[j].1], scores@[all[j].1]),
                    ),
                forall|j: int|
                    0 <= j < task_list@.len() ==> (#[trigger] task_list@[j])@ == rows@[all[j].1].task@,
            decreases cand.rows@.len() - k,
        {
            let at = cand.rows[k];
            assert(cand.rows@[k as int] < rows@.len());
            assert(all[base + k] == (c as int, at as int));
            trials.push(build_trial(cand.trial.as_str(), &rows[at], scores[at]));
            task_list.push(owned(rows[at].task.as_str()));
            k = k + 1;
        }
        candidates.push(build_standing(cand, &marks[c], &p, c));
        c = c + 1;
    }
    let tasks = distinct_texts(&task_list);
    let verdict = choose_verdict(&cs, &marks, &p);
    let r = CompareReport {
        procedure: owned(
            "score = 0.6·quality + 0.4·throughput; quality = 0.25·variety + 0.75·(1 − bigram repetition) on the output; throughput = native/wall tok/s normalized to the task group's max; a candidate's standing is the mean of its trial scores; the verdict names the top mean score (tie broken by mean tok/s).",
        ),
        tasks,
        candidates,
        trials,
        verdict,
    };
    proof {
        let flat = grouped(cs@, cs@.len() as int);
        assert(texts(task_list@) =~= Seq::new(flat.len(), |k: int| rows@[flat[k].1].task@));
        assert(is_report(r, rows@, cs@, scores@, marks@, p@));
    }
    r
}

/// Leading zeros do not change what a run of digits denotes.
proof fn lemma_zeros_denote(n: int, s: Seq<char>)
    ensures
        crate::text::digits_number(crate::text::zeros(n) + s) == crate::text::digits_number(s),
    decreases s.len(),
{
    let z = crate::text::zeros(n);
    if s.len() > 0 {
        lemma_zeros_denote(n, s.drop_last());
        assert((z + s).drop_last() =~= z + s.drop_last());
        assert((z + s).last() == s.last());
    } else {
        assert(z + s =~= z);
        lemma_only_zeros(n);
    }
}

proof fn lemma_only_zeros(n: int)
    ensures
        crate::text::digits_number(crate::text::zeros(n)) == Some(0nat),
    decreases n,
{
    if n > 0 {
        lemma_only_zeros(n - 1);
        assert(crate::text::zeros(n).drop_last() =~= crate::text::zeros(n - 1));
        assert(crate::text::zeros(n).last() == '0');
    }
}

/// No two candidates have the same opaque id.
pub proof fn law_trial_ids_differ(a: nat, b: nat)
    requires
        trial_text(a) == trial_text(b),
    ensures
        a == b,
{
    let x = decimal_padded(a + 1, 3);
    let y = decimal_padded(b + 1, 3);
    assert(x =~= trial_text(a).skip("trial-"@.len() as int));
    assert(y =~= trial_text(b).skip("trial-"@.len() as int));
    lemma_zeros_denote(3 - decimal(a + 1).len(), decimal(a + 1));
    lemma_zeros_denote(3 - decimal(b + 1).len(), decimal(b + 1));
    crate::text::lemma_decimal_denotes(a + 1);
    crate::text::lemma_decimal_denotes(b + 1);
}

/// A failed trial scores zero, whatever was measured.
pub proof fn law_failed_trial_scores_zero(r: MatrixRow, score: Measure)
    requires
        !row_ok(r),
    ensures
        score_of(r, score).bits == 0,
{
}

/// A candidate has a mean speed exactly where some row of it ran, and its mean
/// score is zero where none did.
pub proof fn law_means_need_a_run(
    r: CompareReport,
    rows: Seq<MatrixRow>,
    seed: u64,
    scores: Seq<Measure>,
    means: Seq<Means>,
    c: int,
)
    requires
        reports(r, rows, seed, scores, means),
        0 <= c < r.candidates@.len(),
    ensures
        r.candidates@[c].mean_tok_s is Some <==> r.candidates@[c].ok_runs > 0,
        r.candidates@[c].ok_runs == 0 ==> r.candidates@[c].mean_score.bits == 0,
{
    let (cs, marks, p) = choose|cs: Seq<Candidate>, marks: Seq<CandidateMarks>, p: Seq<usize>|
        {
            &&& are_candidates(cs, rows, seed)
            &&& are_marks(marks, cs, means)
            &&& in_order(p, marks.len(), better(marks))
            &&& #[trigger] is_report(r, rows, cs, scores, marks, p)
        };
    assert(is_standing(r.candidates@[c], cs[c], marks[c], medal(p, c)));
    assert(is_marks(marks[c], cs[c], means[c]));
}

/// Exactly one candidate is marked best, where there is any.
pub proof fn law_one_best(p: Seq<usize>, n: nat, c: int, d: int)
    requires
        is_permutation(p, n),
        0 <= c < n,
        0 <= d < n,
        medal(p, c) == Some("BEST"@),
        medal(p, d) == Some("BEST"@),
    ensures
        c == d,
{
    reveal_strlit("BEST");
    reveal_strlit("runner-up");
    assert("BEST"@.len() != "runner-up"@.len());
}

} // verus!
