//! The comparison scorecard: what of a trial's text counts, and the order in
//! which candidates are blinded.
//!
//! A trial's quality is a quarter of its variety and three quarters of its
//! texture. Both are fractions; this module counts what they are fractions of.
use vstd::prelude::*;

use crate::order::is_permutation;
use crate::text::{same, str_words, texts, words};

verus! {

/// What the quality of a text is computed from. Variety is `unique / tokens`;
/// texture is `singles / pairs`. A text of fewer than four tokens has quality
/// zero.
#[derive(Debug, Clone, Copy, PartialEq, Eq, Structural)]
pub struct Lexicon {
    /// Words.
    pub tokens: usize,
    /// Different words.
    pub unique: usize,
    /// Different pairs of neighbouring words.
    pub pairs: usize,
    /// Pairs of neighbouring words that occur once.
    pub singles: usize,
}

/// Position `i` holds what no earlier position holds.
pub open spec fn is_first<T>(s: Seq<T>, i: int) -> bool {
    forall|j: int| 0 <= j < i ==> s[j] != s[i]
}

/// Position `i` holds what no other position holds.
pub open spec fn is_only<T>(s: Seq<T>, i: int) -> bool {
    forall|j: int| 0 <= j < s.len() && j != i ==> s[j] != s[i]
}

/// How many different values stand at the first `n` positions.
pub open spec fn distinct_count<T>(s: Seq<T>, n: int) -> nat
    decreases n,
{
    if n <= 0 {
        0
    } else {
        distinct_count(s, n - 1) + if is_first(s, n - 1) {
            1nat
        } else {
            0
        }
    }
}

/// How many of the values at the first `n` positions stand nowhere else.
pub open spec fn single_count<T>(s: Seq<T>, n: int) -> nat
    decreases n,
{
    if n <= 0 {
        0
    } else {
        single_count(s, n - 1) + if is_only(s, n - 1) {
            1nat
        } else {
            0
        }
    }
}

/// The pairs of neighbours.
pub open spec fn neighbours<T>(s: Seq<T>) -> Seq<(T, T)> {
    Seq::new(
        if s.len() > 0 {
            (s.len() - 1) as nat
        } else {
            0
        },
        |i: int| (s[i], s[i + 1]),
    )
}

/// What the quality of a text is computed from.
pub open spec fn is_lexicon(text: Seq<char>, l: Lexicon) -> bool {
    let w = words(text);
    let p = neighbours(w);
    &&& l.tokens == w.len()
    &&& l.unique == distinct_count(w, w.len() as int)
    &&& l.pairs == distinct_count(p, p.len() as int)
    &&& l.singles == single_count(p, p.len() as int)
}

fn word_is_first(w: &Vec<String>, i: usize) -> (r: bool)
    requires
        i < w@.len(),
    ensures
        r == is_first(texts(w@), i as int),
{
    let mut j: usize = 0;
    while j < i
        invariant
            j <= i < w@.len(),
            forall|k: int| 0 <= k < j ==> texts(w@)[k] != texts(w@)[i as int],
        decreases i - j,
    {
        if same(w[j].as_str(), w[i].as_str()) {
            assert(texts(w@)[j as int] == texts(w@)[i as int]);
            return false;
        }
        j = j + 1;
    }
    true
}

/// How often a pair occurs before position `i`, and in all.
fn pair_count(w: &Vec<String>, i: usize) -> (r: (bool, bool))
    requires
        i + 1 < w@.len(),
    ensures
        r.0 == is_first(neighbours(texts(w@)), i as int),
        r.1 == is_only(neighbours(texts(w@)), i as int),
{
    let ghost p = neighbours(texts(w@));
    let mut first = true;
    let mut only = true;
    let n = w.len();
    let mut j: usize = 0;
    while j + 1 < n
        invariant
            p == neighbours(texts(w@)),
            i + 1 < n,
            n == w@.len(),
            j < n,
            first == forall|k: int| 0 <= k < j && k < i ==> p[k] != p[i as int],
            only == forall|k: int| 0 <= k < j && k != i ==> p[k] != p[i as int],
        decreases w@.len() - j,
    {
        let equal = same(w[j].as_str(), w[i].as_str()) && same(
            w[j + 1].as_str(),
            w[i + 1].as_str(),
        );
        assert(equal == (p[j as int] == p[i as int]));
        if equal && j != i {
            only = false;
            if j < i {
                first = false;
            }
        }
        j = j + 1;
    }
    assert(j == p.len());
    (first, only)
}

proof fn lemma_counts_bounded<T>(s: Seq<T>, n: int)
    requires
        0 <= n,
    ensures
        distinct_count(s, n) <= n,
        single_count(s, n) <= n,
    decreases n,
{
    if n > 0 {
        lemma_counts_bounded(s, n - 1);
    }
}

/// Counts what the quality of a text is computed from.
pub fn quality(text: &str) -> (r: Lexicon)
    ensures
        is_lexicon(text@, r),
{
    let w = str_words(text);
    let ghost ws = texts(w@);
    let ghost p = neighbours(ws);
    let mut unique: usize = 0;
    let mut i: usize = 0;
    while i < w.len()
        invariant
            ws == texts(w@),
            i <= w@.len(),
            unique == distinct_count(ws, i as int),
        decreases w@.len() - i,
    {
        proof {
            lemma_counts_bounded(ws, i as int);
        }
        if word_is_first(&w, i) {
            unique = unique + 1;
        }
        i = i + 1;
    }
    let mut pairs: usize = 0;
    let mut singles: usize = 0;
    let mut k: usize = 0;
    if w.len() > 0 {
        while k < w.len() - 1
            invariant
                ws == texts(w@),
                p == neighbours(ws),
                w@.len() > 0,
                k <= p.len() == w@.len() - 1,
                pairs == distinct_count(p, k as int),
                singles == single_count(p, k as int),
            decreases w@.len() - k,
        {
            proof {
                lemma_counts_bounded(p, k as int);
            }
            let (first, only) = pair_count(&w, k);
            if first {
                pairs = pairs + 1;
            }
            if only {
                singles = singles + 1;
            }
            k = k + 1;
        }
    }
    Lexicon { tokens: w.len(), unique, pairs, singles }
}

/// One step of the generator.
pub open spec fn next_state(s: u64) -> u64 {
    let a = s ^ (s << 13u64);
    let b = a ^ (a >> 7u64);
    b ^ (b << 17u64)
}

/// The list with two positions exchanged.
pub open spec fn exchanged(xs: Seq<usize>, i: int, j: int) -> Seq<usize> {
    xs.update(i, xs[j]).update(j, xs[i])
}

/// The list after position `i` and all before it were exchanged with one at or
/// before them, which the generator chose.
pub open spec fn shuffled_from(xs: Seq<usize>, s: u64, i: int) -> Seq<usize>
    decreases i,
{
    if i < 1 {
        xs
    } else {
        let t = next_state(s);
        shuffled_from(exchanged(xs, i, t as int % (i + 1)), t, i - 1)
    }
}

/// The numbers `0..n` in order.
pub open spec fn counting(n: nat) -> Seq<usize> {
    Seq::new(n, |i: int| i as usize)
}

/// The numbers `0..n` in the order that a seed gives.
pub open spec fn shuffle(n: nat, seed: u64) -> Seq<usize> {
    shuffled_from(
        counting(n),
        if seed >= 1 {
            seed
        } else {
            1
        },
        n - 1,
    )
}

proof fn lemma_exchange_permutes(xs: Seq<usize>, n: nat, i: int, j: int)
    requires
        is_permutation(xs, n),
        0 <= i < n,
        0 <= j < n,
    ensures
        is_permutation(exchanged(xs, i, j), n),
{
    let ys = exchanged(xs, i, j);
    assert forall|a: int, b: int| 0 <= a < n && 0 <= b < n && a != b implies ys[a] != ys[b] by {
        let x = if a == i {
            j
        } else if a == j {
            i
        } else {
            a
        };
        let y = if b == i {
            j
        } else if b == j {
            i
        } else {
            b
        };
        assert(ys[a] == xs[x]);
        assert(ys[b] == xs[y]);
        assert(x != y);
    }
    assert forall|a: int| 0 <= a < n implies #[trigger] ys[a] < n by {
        if a == i {
            assert(ys[a] == xs[j] || i == j);
        }
    }
}

/// The numbers `0..n` in the order that a seed gives: whatever the seed, each
/// of them once, and for the same seed always the same.
pub fn shuffled_indices(n: usize, seed: u64) -> (r: Vec<usize>)
    ensures
        r@ == shuffle(n as nat, seed),
        is_permutation(r@, n as nat),
{
    let mut xs: Vec<usize> = Vec::new();
    let mut k: usize = 0;
    while k < n
        invariant
            k <= n,
            xs@.len() == k,
            forall|j: int| 0 <= j < k ==> #[trigger] xs@[j] == j,
        decreases n - k,
    {
        xs.push(k);
        k = k + 1;
    }
    assert(xs@ =~= counting(n as nat));
    assert(is_permutation(xs@, n as nat));
    if n < 2 {
        return xs;
    }
    let mut s: u64 = if seed >= 1 {
        seed
    } else {
        1
    };
    let mut i: usize = n - 1;
    while i >= 1
        invariant
            i < n,
            is_permutation(xs@, n as nat),
            shuffle(n as nat, seed) == shuffled_from(xs@, s, i as int),
        decreases i,
    {
        let a = s ^ (s << 13u64);
        let b = a ^ (a >> 7u64);
        let t = b ^ (b << 17u64);
        let j = (t % (i as u64 + 1)) as usize;
        proof {
            lemma_exchange_permutes(xs@, n as nat, i as int, j as int);
            assert(t == next_state(s));
        }
        let x = xs[i];
        let y = xs[j];
        xs.set(i, y);
        xs.set(j, x);
        s = t;
        i = i - 1;
    }
    xs
}

/// A shuffle holds each number once, whatever the seed.
pub proof fn law_shuffle_is_permutation(n: nat, seed: u64)
    requires
        n <= usize::MAX,
    ensures
        is_permutation(shuffle(n, seed), n),
{
    assert(is_permutation(counting(n), n));
    lemma_shuffle_permutes(
        counting(n),
        n,
        if seed >= 1 {
            seed
        } else {
            1
        },
        n - 1,
    );
}

proof fn lemma_shuffle_permutes(xs: Seq<usize>, n: nat, s: u64, i: int)
    requires
        is_permutation(xs, n),
        i < n,
    ensures
        is_permutation(shuffled_from(xs, s, i), n),
    decreases i,
{
    if i >= 1 {
        let t = next_state(s);
        lemma_exchange_permutes(xs, n, i, t as int % (i + 1));
        lemma_shuffle_permutes(exchanged(xs, i, t as int % (i + 1)), n, t, i - 1);
    }
}

} // verus!
