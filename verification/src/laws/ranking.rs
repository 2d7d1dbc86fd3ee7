//! How trials are counted, compared and ranked.
use vstd::prelude::*;

use crate::engines::compare::{
    are_candidates, are_marks, better, candidate_key, candidate_keys, distinct, is_candidate,
    is_report, is_standing, medal, ok_count, positions, report_from_rows, row_keys, rows_of,
    rows_upto, Candidate, CandidateMarks, CompareReport, Means,
};
use crate::engines::scoring::{
    distinct_count, is_first, is_only, neighbours, next_state, quality, shuffle, shuffled_from,
    shuffled_indices, single_count, Lexicon,
};
use crate::measure::Measure;
use crate::order::{in_order, lemma_permutation_hits};
use crate::recommend::{
    firsts_upto, is_tally, median, passed_by, passed_upto, rank_candidates, runs_upto, slower,
    speeds_upto, tallies, RankedCandidate, Tally, TaskRun, Verdict,
};
use crate::store::bench::MatrixRow;
use crate::text::{opt_text, words};

verus! {

/// A measured quantity that is no less than nothing.
pub open spec fn is_quantity(m: Measure) -> bool {
    m.bits <= 0x7ff0_0000_0000_0000
}

/// A speed, where there is one, that is no less than nothing.
pub open spec fn is_speed(m: Option<Measure>) -> bool {
    m is Some ==> is_quantity(m->0)
}

/// A speed is at least another; no speed is below any.
pub open spec fn no_slower(a: Option<Measure>, b: Option<Measure>) -> bool {
    match (a, b) {
        (_, None) => true,
        (None, Some(_)) => false,
        (Some(x), Some(y)) => x.bits >= y.bits,
    }
}

/// A ranked list holds the candidates, each once: `p` says where each was. For
/// speed the faster median comes first; for efficiency the higher figure; else
/// the higher rate of success, and of equal rates the faster median.
pub proof fn law_ranked_by_the_objective(
    cands: Vec<RankedCandidate>,
    efficiency: &Vec<Measure>,
    objective: &str,
    r: Vec<RankedCandidate>,
) -> (p: Seq<usize>)
    requires
        call_ensures(rank_candidates, (cands, efficiency, objective), r),
        efficiency@.len() == cands@.len(),
        forall|i: int|
            0 <= i < cands@.len() ==> is_quantity((#[trigger] cands@[i]).success_rate) && is_speed(
                cands@[i].p50_tok_s,
            ),
        forall|i: int| 0 <= i < cands@.len() ==> is_quantity(#[trigger] efficiency@[i]),
    ensures
        p.len() == cands@.len(),
        r@.len() == cands@.len(),
        p.no_duplicates(),
        forall|i: int| 0 <= i < p.len() ==> #[trigger] p[i] < cands@.len(),
        forall|i: int| 0 <= i < r@.len() ==> #[trigger] r@[i] == cands@[p[i] as int],
        objective@ == "speed"@ ==> forall|i: int, j: int|
            0 <= i < j < r@.len() ==> no_slower(
                (#[trigger] r@[i]).p50_tok_s,
                (#[trigger] r@[j]).p50_tok_s,
            ),
        objective@ == "efficient"@ ==> forall|i: int, j: int|
            0 <= i < j < r@.len() ==> efficiency@[#[trigger] p[i] as int].bits
                >= efficiency@[#[trigger] p[j] as int].bits,
        objective@ != "speed"@ && objective@ != "efficient"@ ==> forall|i: int, j: int|
            0 <= i < j < r@.len() ==> {
                &&& (#[trigger] r@[i]).success_rate.bits >= (#[trigger] r@[j]).success_rate.bits
                &&& r@[i].success_rate.bits == r@[j].success_rate.bits ==> no_slower(
                    r@[i].p50_tok_s,
                    r@[j].p50_tok_s,
                )
            },
{
    reveal_strlit("speed");
    reveal_strlit("efficient");
    let p = choose|p: Seq<usize>|
        #[trigger] in_order(
            p,
            cands@.len(),
            crate::recommend::better(cands@, efficiency@, objective@),
        ) && r@.len() == cands@.len() && forall|i: int|
            0 <= i < r@.len() ==> #[trigger] r@[i] == cands@[p[i] as int];
    let better = crate::recommend::better(cands@, efficiency@, objective@);
    assert forall|i: int, j: int| 0 <= i < j < r@.len() implies !better(
        #[trigger] p[j] as int,
        #[trigger] p[i] as int,
    ) by {
        assert(p[i] < cands@.len() && p[j] < cands@.len());
        assert(r@[i] == cands@[p[i] as int] && r@[j] == cands@[p[j] as int]);
        assert(is_quantity(cands@[p[i] as int].success_rate) && is_quantity(
            cands@[p[j] as int].success_rate,
        ));
        assert(is_quantity(efficiency@[p[i] as int]) && is_quantity(efficiency@[p[j] as int]));
    }
    assert forall|i: int, j: int| 0 <= i < j < r@.len() && objective@ == "speed"@ implies no_slower(
        (#[trigger] r@[i]).p50_tok_s,
        (#[trigger] r@[j]).p50_tok_s,
    ) by {
        assert(!better(p[j] as int, p[i] as int));
        assert(is_speed(cands@[p[i] as int].p50_tok_s) && is_speed(cands@[p[j] as int].p50_tok_s));
    }
    assert forall|i: int, j: int|
        0 <= i < j < r@.len() && objective@ == "efficient"@ implies efficiency@[#[trigger] p[i] as int].bits
        >= efficiency@[#[trigger] p[j] as int].bits by {
        assert(!better(p[j] as int, p[i] as int));
        assert(is_quantity(efficiency@[p[i] as int]) && is_quantity(efficiency@[p[j] as int]));
        assert("speed"@.len() != "efficient"@.len());
    }
    assert forall|i: int, j: int|
        0 <= i < j < r@.len() && objective@ != "speed"@ && objective@ != "efficient"@ implies (
    #[trigger] r@[i]).success_rate.bits >= (#[trigger] r@[j]).success_rate.bits && (
    r@[i].success_rate.bits == r@[j].success_rate.bits ==> no_slower(
        r@[i].p50_tok_s,
        r@[j].p50_tok_s,
    )) by {
        assert(!better(p[j] as int, p[i] as int));
        assert(is_quantity(cands@[p[i] as int].success_rate) && is_quantity(
            cands@[p[j] as int].success_rate,
        ));
        assert(is_speed(cands@[p[i] as int].p50_tok_s) && is_speed(cands@[p[j] as int].p50_tok_s));
    }
    p
}

/// The values in ascending order, which is `p`, have this one in the middle,
/// above it where there are two middles.
pub open spec fn is_in_middle(v: Seq<Measure>, p: Seq<usize>, m: Measure) -> bool {
    &&& p.len() == v.len()
    &&& p.no_duplicates()
    &&& forall|i: int| 0 <= i < p.len() ==> #[trigger] p[i] < v.len()
    &&& forall|i: int, j: int|
        0 <= i < j < p.len() ==> v[#[trigger] p[i] as int].bits <= v[#[trigger] p[j] as int].bits
    &&& m == v[p[v.len() as int / 2] as int]
}

/// The value stands in the middle of the others, where none is below nothing.
pub open spec fn is_middle(v: Seq<Measure>, m: Option<Measure>) -> bool {
    m is Some && (forall|i: int| 0 <= i < v.len() ==> is_quantity(#[trigger] v[i])) ==> exists|
        p: Seq<usize>,
    | #[trigger]
        is_in_middle(v, p, m->0)
}

proof fn lemma_median(v: Seq<Measure>, m: Option<Measure>)
    requires
        crate::recommend::is_median(v, m),
    ensures
        m is None <==> v.len() == 0,
        is_middle(v, m),
{
    if v.len() > 0 && (forall|i: int| 0 <= i < v.len() ==> is_quantity(#[trigger] v[i])) {
        let p = choose|p: Seq<usize>|
            #[trigger] in_order(p, v.len(), slower(v)) && m == Some(
                v[p[v.len() as int / 2] as int],
            );
        assert forall|i: int, j: int| 0 <= i < j < p.len() implies v[#[trigger] p[i] as int].bits
            <= v[#[trigger] p[j] as int].bits by {
            assert(p[i] < v.len() && p[j] < v.len());
            assert(is_quantity(v[p[i] as int]) && is_quantity(v[p[j] as int]));
        }
        assert(is_in_middle(v, p, m->0));
    }
}

/// The median stands in the middle of the values in ascending order.
pub proof fn law_median_is_in_the_middle(v: &Vec<Measure>, r: Option<Measure>)
    requires
        call_ensures(median, (v,), r),
    ensures
        r is None <==> v@.len() == 0,
        is_middle(v@, r),
{
    lemma_median(v@, r);
}

/// The run is of the model and the engine.
pub open spec fn is_of(t: TaskRun, model: Seq<char>, engine: Seq<char>) -> bool {
    t.model@ == model && t.engine@ == engine
}

/// No verdict on the run is negative, the last counts.
pub open spec fn is_passed(evals: Seq<Verdict>, id: i64) -> bool {
    forall|k: int|
        0 <= k < evals.len() && (#[trigger] evals[k]).0 == id && (forall|l: int|
            k < l < evals.len() ==> (#[trigger] evals[l]).0 != id) ==> evals[k].1
}

proof fn lemma_passed(evals: Seq<Verdict>, id: i64)
    ensures
        passed_by(evals, id) == is_passed(evals, id),
    decreases evals.len(),
{
    if evals.len() > 0 {
        let rest = evals.drop_last();
        let n = evals.len() - 1;
        lemma_passed(rest, id);
        if evals.last().0 == id {
            assert(evals[n].0 == id);
            if evals.last().1 {
                assert forall|k: int|
                    0 <= k < evals.len() && (#[trigger] evals[k]).0 == id && (forall|l: int|
                        k < l < evals.len() ==> (#[trigger] evals[l]).0 != id) implies evals[k].1 by {
                    if k < n {
                        assert(evals[n].0 != id);
                    }
                }
            }
        } else {
            if is_passed(rest, id) {
                assert forall|k: int|
                    0 <= k < evals.len() && (#[trigger] evals[k]).0 == id && (forall|l: int|
                        k < l < evals.len() ==> (#[trigger] evals[l]).0 != id) implies evals[k].1 by {
                    assert(rest[k] == evals[k]);
                    assert forall|l: int| k < l < rest.len() implies (#[trigger] rest[l]).0 != id by {
                        assert(rest[l] == evals[l]);
                    }
                }
            } else {
                let k = choose|k: int|
                    0 <= k < rest.len() && (#[trigger] rest[k]).0 == id && (forall|l: int|
                        k < l < rest.len() ==> (#[trigger] rest[l]).0 != id) && !rest[k].1;
                assert(evals[k] == rest[k]);
                assert forall|l: int| k < l < evals.len() implies (#[trigger] evals[l]).0 != id by {
                    if l < n {
                        assert(rest[l] == evals[l]);
                    }
                }
            }
        }
    }
}

/// How many of the first `n` runs are of a model and an engine, and how many
/// of those passed.
pub open spec fn tally_upto(
    rows: Seq<TaskRun>,
    evals: Seq<Verdict>,
    model: Seq<char>,
    engine: Seq<char>,
    n: int,
) -> (int, int)
    decreases n,
{
    if n <= 0 {
        (0, 0)
    } else {
        let (runs, passed) = tally_upto(rows, evals, model, engine, n - 1);
        if is_of(rows[n - 1], model, engine) {
            (
                runs + 1,
                if is_passed(evals, rows[n - 1].id) {
                    passed + 1
                } else {
                    passed
                },
            )
        } else {
            (runs, passed)
        }
    }
}

/// One of the first `n` runs, of a model and an engine, had the speed.
pub open spec fn is_speed_of(
    rows: Seq<TaskRun>,
    model: Seq<char>,
    engine: Seq<char>,
    n: int,
    m: Measure,
) -> bool {
    exists|k: int|
        0 <= k < n && is_of(#[trigger] rows[k], model, engine) && rows[k].tok_s == Some(m)
}

proof fn lemma_tally(rows: Seq<TaskRun>, evals: Seq<Verdict>, h: int, n: int)
    requires
        0 <= n <= rows.len(),
    ensures
        tally_upto(rows, evals, rows[h].model@, rows[h].engine@, n) == (
            runs_upto(rows, h, n) as int,
            passed_upto(rows, evals, h, n) as int,
        ),
        forall|k: int|
            0 <= k < n && is_of(#[trigger] rows[k], rows[h].model@, rows[h].engine@)
                && rows[k].tok_s is Some ==> speeds_upto(rows, h, n).contains(rows[k].tok_s->0),
        forall|x: int|
            0 <= x < speeds_upto(rows, h, n).len() ==> is_speed_of(
                rows,
                rows[h].model@,
                rows[h].engine@,
                n,
                #[trigger] speeds_upto(rows, h, n)[x],
            ),
    decreases n,
{
    if n > 0 {
        lemma_tally(rows, evals, h, n - 1);
        lemma_passed(evals, rows[n - 1].id);
        let rest = speeds_upto(rows, h, n - 1);
        let all = speeds_upto(rows, h, n);
        assert forall|k: int|
            0 <= k < n && is_of(#[trigger] rows[k], rows[h].model@, rows[h].engine@)
                && rows[k].tok_s is Some implies all.contains(rows[k].tok_s->0) by {
            if k == n - 1 {
                assert(all[rest.len() as int] == rows[k].tok_s->0);
            } else {
                assert(rest.contains(rows[k].tok_s->0));
                let x = choose|x: int| 0 <= x < rest.len() && rest[x] == rows[k].tok_s->0;
                assert(all[x] == rows[k].tok_s->0);
            }
        }
        assert forall|x: int| 0 <= x < all.len() implies is_speed_of(
            rows,
            rows[h].model@,
            rows[h].engine@,
            n,
            #[trigger] all[x],
        ) by {
            if x < rest.len() {
                assert(rest[x] == all[x]);
                let k = choose|k: int|
                    0 <= k < n - 1 && is_of(#[trigger] rows[k], rows[h].model@, rows[h].engine@)
                        && rows[k].tok_s == Some(rest[x]);
                assert(is_of(rows[k], rows[h].model@, rows[h].engine@));
            } else {
                assert(is_of(rows[n - 1], rows[h].model@, rows[h].engine@));
            }
        }
    }
}

/// A tally counts the runs of its model and engine and those that passed, and
/// holds the speeds that were measured of them.
pub proof fn law_tally_counts(
    rows: &Vec<TaskRun>,
    evals: &Vec<Verdict>,
    workload: &str,
    r: Result<Vec<Tally>, String>,
    i: int,
)
    requires
        call_ensures(tallies, (rows, evals, workload), r),
    ensures
        rows@.len() == 0 <==> r is Err,
        r is Ok && 0 <= i < (r->Ok_0)@.len() ==> {
            let t = (r->Ok_0)@[i];
            &&& (t.runs as int, t.successes as int) == tally_upto(
                rows@,
                evals@,
                t.model@,
                t.engine@,
                rows@.len() as int,
            )
            &&& t.p50 is None <==> t.speeds@.len() == 0
            &&& is_middle(t.speeds@, t.p50)
            &&& forall|k: int|
                0 <= k < rows@.len() && is_of(#[trigger] rows@[k], t.model@, t.engine@)
                    && rows@[k].tok_s is Some ==> t.speeds@.contains(rows@[k].tok_s->0)
            &&& forall|x: int|
                0 <= x < t.speeds@.len() ==> is_speed_of(
                    rows@,
                    t.model@,
                    t.engine@,
                    rows@.len() as int,
                    #[trigger] t.speeds@[x],
                )
        },
{
    if r is Ok && 0 <= i < (r->Ok_0)@.len() {
        let h = firsts_upto(rows@, rows@.len() as int)[i];
        assert(is_tally(rows@, evals@, h, (r->Ok_0)@[i]));
        lemma_tally(rows@, evals@, h, rows@.len() as int);
        lemma_median((r->Ok_0)@[i].speeds@, (r->Ok_0)@[i].p50);
    }
}

/// The number of different items is the size of their set.
proof fn lemma_distinct_count<T>(s: Seq<T>, n: int)
    requires
        0 <= n <= s.len(),
    ensures
        distinct_count(s, n) == s.take(n).to_set().len(),
        s.take(n).to_set().finite(),
    decreases n,
{
    if n > 0 {
        lemma_distinct_count(s, n - 1);
        let a = s.take(n - 1);
        let b = s.take(n);
        assert(b =~= a.push(s[n - 1]));
        assert(b.to_set() =~= a.to_set().insert(s[n - 1])) by {
            assert forall|x: T| b.to_set().contains(x) <==> #[trigger] a.to_set().insert(
                s[n - 1],
            ).contains(x) by {
                if b.to_set().contains(x) {
                    let i = choose|i: int| 0 <= i < b.len() && b[i] == x;
                    if i < n - 1 {
                        assert(a[i] == x);
                    }
                }
                if a.to_set().contains(x) {
                    let i = choose|i: int| 0 <= i < a.len() && a[i] == x;
                    assert(b[i] == x);
                }
                if x == s[n - 1] {
                    assert(b[n - 1] == x);
                }
            }
        }
        if is_first(s, n - 1) {
            assert(!a.to_set().contains(s[n - 1])) by {
                if a.to_set().contains(s[n - 1]) {
                    let i = choose|i: int| 0 <= i < a.len() && a[i] == s[n - 1];
                    assert(s[i] == s[n - 1]);
                }
            }
        } else {
            let j = choose|j: int| 0 <= j < n - 1 && #[trigger] s[j] == s[n - 1];
            assert(a[j] == s[n - 1]);
        }
    } else {
        assert(s.take(0).to_set() =~= Set::empty());
    }
}

/// The pairs of neighbouring words.
pub open spec fn word_pairs(text: Seq<char>) -> Seq<(Seq<char>, Seq<char>)> {
    let w = words(text);
    if w.len() == 0 {
        Seq::empty()
    } else {
        Seq::new((w.len() - 1) as nat, |i: int| (w[i], w[i + 1]))
    }
}

/// How many of the first `n` items occur nowhere else.
pub open spec fn lone_upto<T>(s: Seq<T>, n: int) -> nat
    decreases n,
{
    if n <= 0 {
        0
    } else if exists|j: int|
        0 <= j < s.len() && j != n - 1 && #[trigger] s[j] == s[n - 1] {
        lone_upto(s, n - 1)
    } else {
        lone_upto(s, n - 1) + 1
    }
}

proof fn lemma_lone<T>(s: Seq<T>, n: int)
    requires
        0 <= n <= s.len(),
    ensures
        lone_upto(s, n) == single_count(s, n),
    decreases n,
{
    if n > 0 {
        lemma_lone(s, n - 1);
        if is_only(s, n - 1) {
            assert(!(exists|j: int|
                0 <= j < s.len() && j != n - 1 && #[trigger] s[j] == s[n - 1]));
        } else {
            let j = choose|j: int|
                0 <= j < s.len() && j != n - 1 && #[trigger] s[j] == s[n - 1];
            assert(s[j] == s[n - 1]);
        }
    }
}

/// The lexicon of a text counts its words, its different words, its different
/// pairs of neighbours, and the pairs that occur once.
pub proof fn law_lexicon(text: &str, r: Lexicon)
    requires
        call_ensures(quality, (text,), r),
    ensures
        r.tokens == words(text@).len(),
        r.unique == words(text@).to_set().len(),
        r.pairs == word_pairs(text@).to_set().len(),
        r.singles == lone_upto(word_pairs(text@), word_pairs(text@).len() as int),
{
    let w = words(text@);
    let p = word_pairs(text@);
    assert(p =~= neighbours(w));
    lemma_distinct_count(w, w.len() as int);
    lemma_distinct_count(p, p.len() as int);
    assert(w.take(w.len() as int) =~= w);
    assert(p.take(p.len() as int) =~= p);
    lemma_lone(p, p.len() as int);
}

/// One step of the generator: three shifts, by 13 up, by 7 down, by 17 up,
/// each taken into the state.
pub open spec fn drawn(s: u64) -> u64 {
    let a = s ^ (s << 13u64);
    let b = a ^ (a >> 7u64);
    b ^ (b << 17u64)
}

proof fn lemma_shuffled_tail(xs: Seq<usize>, s: u64, i: int, k: int)
    requires
        0 <= i < xs.len(),
        i < k < xs.len(),
    ensures
        shuffled_from(xs, s, i).len() == xs.len(),
        shuffled_from(xs, s, i)[k] == xs[k],
    decreases i,
{
    if i >= 1 {
        let t = next_state(s);
        let j = t as int % (i + 1);
        let ys = crate::engines::scoring::exchanged(xs, i, j);
        lemma_shuffled_tail(ys, t, i - 1, k);
    }
}

/// A shuffle holds every position once, and draws the last place first: what
/// the first number of the generator names, from a seed of at least one.
pub proof fn law_shuffle(n: usize, seed: u64, r: Vec<usize>)
    requires
        call_ensures(shuffled_indices, (n, seed), r),
    ensures
        r@.len() == n,
        r@.no_duplicates(),
        forall|i: int| 0 <= i < n ==> #[trigger] r@[i] < n,
        n >= 2 ==> r@[n - 1] == drawn(
            if seed == 0 {
                1
            } else {
                seed
            },
        ) as int % n as int,
{
    if n >= 2 {
        let s: u64 = if seed >= 1 {
            seed
        } else {
            1
        };
        let xs = crate::engines::scoring::counting(n as nat);
        let t = next_state(s);
        let j = t as int % (n as int);
        let ys = crate::engines::scoring::exchanged(xs, n - 1, j);
        if n >= 2 {
            lemma_shuffled_tail(ys, t, n - 2, n - 1);
        }
        assert(r@ == shuffled_from(ys, t, n - 2));
        assert(ys[n - 1] == xs[j]);
    }
}

proof fn lemma_distinct(s: Seq<Seq<char>>)
    ensures
        forall|i: int| 0 <= i < s.len() ==> distinct(s).contains(#[trigger] s[i]),
        forall|k: int| 0 <= k < distinct(s).len() ==> s.contains(#[trigger] distinct(s)[k]),
        distinct(s).no_duplicates(),
    decreases s.len(),
{
    if s.len() > 0 {
        let t = s.drop_last();
        lemma_distinct(t);
        let rest = distinct(t);
        let all = distinct(s);
        assert forall|i: int| 0 <= i < s.len() implies all.contains(#[trigger] s[i]) by {
            if i < t.len() {
                assert(rest.contains(t[i]));
                let k = choose|k: int| 0 <= k < rest.len() && rest[k] == t[i];
                assert(all[k] == s[i]);
            } else if !rest.contains(s.last()) {
                assert(all[rest.len() as int] == s[i]);
            }
        }
        assert forall|k: int| 0 <= k < all.len() implies s.contains(#[trigger] all[k]) by {
            if k < rest.len() {
                assert(t.contains(rest[k]));
                let i = choose|i: int| 0 <= i < t.len() && t[i] == rest[k];
                assert(s[i] == all[k]);
            } else {
                assert(s[s.len() - 1] == all[k]);
            }
        }
    }
}

proof fn lemma_rows(rows: Seq<MatrixRow>, key: Seq<char>, n: int)
    requires
        0 <= n <= rows.len(),
    ensures
        forall|k: int|
            0 <= k < rows_upto(rows, key, n).len() ==> 0 <= #[trigger] rows_upto(
                rows,
                key,
                n,
            )[k] < n && candidate_key(rows[rows_upto(rows, key, n)[k]]) == key,
        forall|i: int|
            0 <= i < n && candidate_key(#[trigger] rows[i]) == key ==> rows_upto(
                rows,
                key,
                n,
            ).contains(i),
        rows_upto(rows, key, n).len() == entrant_upto(rows, key, n).0,
        ok_count(rows, rows_upto(rows, key, n), rows_upto(rows, key, n).len() as int)
            == entrant_upto(rows, key, n).1,
    decreases n,
{
    if n > 0 {
        lemma_rows(rows, key, n - 1);
        let rest = rows_upto(rows, key, n - 1);
        let all = rows_upto(rows, key, n);
        if candidate_key(rows[n - 1]) == key {
            assert(all == rest.push(n - 1));
            lemma_same_count(rows, rest, all, rest.len() as int);
        }
        assert forall|i: int| 0 <= i < n && candidate_key(#[trigger] rows[i]) == key implies
            all.contains(i) by {
            if i == n - 1 {
                assert(all[rest.len() as int] == i);
            } else {
                assert(rest.contains(i));
                let x = choose|x: int| 0 <= x < rest.len() && rest[x] == i;
                assert(all[x] == i);
            }
        }
    }
}

proof fn lemma_same_count(rows: Seq<MatrixRow>, a: Seq<int>, b: Seq<int>, n: int)
    requires
        0 <= n <= a.len(),
        n <= b.len(),
        forall|i: int| 0 <= i < n ==> #[trigger] a[i] == b[i],
    ensures
        ok_count(rows, a, n) == ok_count(rows, b, n),
    decreases n,
{
    if n > 0 {
        assert(a[n - 1] == b[n - 1]);
        lemma_same_count(rows, a, b, n - 1);
    }
}

/// How many of the first `n` records are of an engine with a model, and how
/// many of those ran.
pub open spec fn entrant_upto(rows: Seq<MatrixRow>, key: Seq<char>, n: int) -> (int, int)
    decreases n,
{
    if n <= 0 {
        (0, 0)
    } else {
        let (trials, ran) = entrant_upto(rows, key, n - 1);
        if rows[n - 1].engine@ + " × "@ + rows[n - 1].model@ == key {
            (
                trials + 1,
                if rows[n - 1].verdict@ == "RUNNING"@ {
                    ran + 1
                } else {
                    ran
                },
            )
        } else {
            (trials, ran)
        }
    }
}

/// A standing is of an engine with a model: it counts that entrant's trials,
/// and those that ran. Every record has its standing.
pub proof fn law_standings(
    rows: &Vec<MatrixRow>,
    seed: u64,
    scores: &Vec<Measure>,
    means: &Vec<Means>,
    r: CompareReport,
    c: int,
    i: int,
)
    requires
        call_ensures(report_from_rows, (rows, seed, scores, means), r),
    ensures
        0 <= c < r.candidates@.len() ==> {
            let s = r.candidates@[c];
            (s.trials as int, s.ok_runs as int) == entrant_upto(
                rows@,
                s.engine@ + " × "@ + s.model@,
                rows@.len() as int,
            )
        },
        0 <= i < rows@.len() ==> exists|k: int|
            0 <= k < r.candidates@.len() && (#[trigger] r.candidates@[k]).engine@ + " × "@
                + r.candidates@[k].model@ == rows@[i].engine@ + " × "@ + rows@[i].model@,
{
    let (cs, marks, p) = choose|cs: Seq<Candidate>, marks: Seq<CandidateMarks>, p: Seq<usize>|
        {
            &&& are_candidates(cs, rows@, seed)
            &&& are_marks(marks, cs, means@)
            &&& in_order(p, marks.len(), better(marks))
            &&& #[trigger] is_report(r, rows@, cs, scores@, marks, p)
        };
    let keys = candidate_keys(rows@);
    lemma_distinct(row_keys(rows@));
    if 0 <= c < r.candidates@.len() {
        assert(is_standing(r.candidates@[c], cs[c], marks[c], medal(p, c)));
        assert(is_candidate(cs[c], rows@, keys[c]));
        lemma_rows(rows@, keys[c], rows@.len() as int);
        let at = rows_of(rows@, keys[c]);
        assert(candidate_key(rows@[at[at.len() - 1]]) == keys[c]);
        assert(positions(cs[c].rows@).len() == cs[c].rows@.len());
    }
    if 0 <= i < rows@.len() {
        assert(row_keys(rows@)[i] == candidate_key(rows@[i]));
        assert(keys.contains(row_keys(rows@)[i]));
        let k = choose|k: int| 0 <= k < keys.len() && keys[k] == row_keys(rows@)[i];
        assert(is_standing(r.candidates@[k], cs[k], marks[k], medal(p, k)));
        assert(is_candidate(cs[k], rows@, keys[k]));
        lemma_rows(rows@, keys[k], rows@.len() as int);
        let at = rows_of(rows@, keys[k]);
        assert(candidate_key(rows@[at[at.len() - 1]]) == keys[k]);
    }
}

/// The speed that counts: nothing where none was measured.
pub open spec fn speed_bits(m: Option<Measure>) -> u64 {
    match m {
        Some(v) => v.bits,
        None => 0,
    }
}

/// The best entrant has the highest mean score, and of equal scores the
/// highest mean speed; there is one, and one only.
pub proof fn law_best_entrant(
    rows: &Vec<MatrixRow>,
    seed: u64,
    scores: &Vec<Measure>,
    means: &Vec<Means>,
    r: CompareReport,
    c: int,
    d: int,
)
    requires
        call_ensures(report_from_rows, (rows, seed, scores, means), r),
        forall|k: int|
            0 <= k < r.candidates@.len() ==> is_quantity((#[trigger] r.candidates@[k]).mean_score)
                && is_speed(r.candidates@[k].mean_tok_s),
        0 <= c < r.candidates@.len(),
        0 <= d < r.candidates@.len(),
    ensures
        opt_text(r.candidates@[c].verdict) == Some("BEST"@) ==> {
            &&& r.candidates@[c].mean_score.bits >= r.candidates@[d].mean_score.bits
            &&& r.candidates@[c].mean_score.bits == r.candidates@[d].mean_score.bits ==> speed_bits(
                r.candidates@[c].mean_tok_s,
            ) >= speed_bits(r.candidates@[d].mean_tok_s)
            &&& opt_text(r.candidates@[d].verdict) == Some("BEST"@) ==> c == d
        },
        opt_text(r.candidates@[c].verdict) == Some("runner-up"@) && opt_text(
            r.candidates@[d].verdict,
        ) is None ==> {
            &&& r.candidates@[c].mean_score.bits >= r.candidates@[d].mean_score.bits
            &&& r.candidates@[c].mean_score.bits == r.candidates@[d].mean_score.bits ==> speed_bits(
                r.candidates@[c].mean_tok_s,
            ) >= speed_bits(r.candidates@[d].mean_tok_s)
        },
        exists|k: int|
            0 <= k < r.candidates@.len() && opt_text((#[trigger] r.candidates@[k]).verdict) == Some(
                "BEST"@,
            ),
{
    let (cs, marks, p) = choose|cs: Seq<Candidate>, marks: Seq<CandidateMarks>, p: Seq<usize>|
        {
            &&& are_candidates(cs, rows@, seed)
            &&& are_marks(marks, cs, means@)
            &&& in_order(p, marks.len(), better(marks))
            &&& #[trigger] is_report(r, rows@, cs, scores@, marks, p)
        };
    reveal_strlit("BEST");
    reveal_strlit("runner-up");
    assert("BEST"@.len() != "runner-up"@.len());
    let n = marks.len();
    assert(is_standing(r.candidates@[c], cs[c], marks[c], medal(p, c)));
    assert(is_standing(r.candidates@[d], cs[d], marks[d], medal(p, d)));
    let x = lemma_permutation_hits(p, n, c);
    let y = lemma_permutation_hits(p, n, d);
    assert(is_quantity(r.candidates@[c].mean_score) && is_quantity(r.candidates@[d].mean_score));
    assert(is_speed(r.candidates@[c].mean_tok_s) && is_speed(r.candidates@[d].mean_tok_s));
    if x < y {
        let less = better(marks);
        assert(less(p[x] as int, p[y] as int) || (!less(p[y] as int, p[x] as int) && p[x] < p[y]));
    }
    assert(p[0] < n);
    let b = p[0] as int;
    assert(is_standing(r.candidates@[b], cs[b], marks[b], medal(p, b)));
}

} // verus!
