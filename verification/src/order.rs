//! Stable sorting by key.
//!
//! A ranking compares the items of a list by their keys. `stable_order` gives
//! the positions of the items in sorted order; items with equal keys keep the
//! order that they had.
use vstd::prelude::*;

use crate::text::{lemma_lex, lex_below, str_lex_below};

verus! {

/// A weak order on the positions `0..count()` of a list.
pub trait Ranking {
    /// How many items there are.
    spec fn count(&self) -> nat;

    /// The key of item `i` is smaller than that of item `j`.
    spec fn before(&self, i: int, j: int) -> bool;

    proof fn weak_order(&self, i: int, j: int, k: int)
        ensures
            !self.before(i, i),
            self.before(i, j) && self.before(j, k) ==> self.before(i, k),
            !self.before(i, j) && !self.before(j, k) ==> !self.before(i, k),
    ;

    fn len(&self) -> (r: usize)
        ensures
            r == self.count(),
    ;

    fn comes_before(&self, i: usize, j: usize) -> (r: bool)
        requires
            i < self.count(),
            j < self.count(),
        ensures
            r == self.before(i as int, j as int),
    ;
}

/// Item `i` stands before item `j`: its key is smaller, or the keys are equal
/// and it came first.
pub open spec fn stands_before<K: Ranking>(keys: &K, i: int, j: int) -> bool {
    keys.before(i, j) || (!keys.before(j, i) && i < j)
}

/// `p` holds each of the positions `0..n` once.
pub open spec fn is_permutation(p: Seq<usize>, n: nat) -> bool {
    &&& p.len() == n
    &&& p.no_duplicates()
    &&& forall|a: int| 0 <= a < n ==> #[trigger] p[a] < n
}

/// `p` holds the positions in sorted order.
pub open spec fn is_stable_order<K: Ranking>(keys: &K, p: Seq<usize>) -> bool {
    &&& is_permutation(p, keys.count())
    &&& forall|a: int, b: int|
        0 <= a < b < p.len() ==> stands_before(keys, #[trigger] p[a] as int, #[trigger] p[b] as int)
}

/// `p` holds the positions `0..n`, smallest first by `less`; items of which
/// none is smaller keep the order that they had.
pub open spec fn in_order(p: Seq<usize>, n: nat, less: spec_fn(int, int) -> bool) -> bool {
    &&& is_permutation(p, n)
    &&& forall|a: int, b: int|
        0 <= a < b < n ==> less(#[trigger] p[a] as int, #[trigger] p[b] as int) || (!less(
            p[b] as int,
            p[a] as int,
        ) && p[a] < p[b])
}

/// A stable order is an order by whatever agrees with the ranking.
pub proof fn lemma_in_order<K: Ranking>(keys: &K, p: Seq<usize>, less: spec_fn(int, int) -> bool)
    requires
        is_stable_order(keys, p),
        forall|i: int, j: int|
            0 <= i < keys.count() && 0 <= j < keys.count() ==> #[trigger] keys.before(i, j) == less(
                i,
                j,
            ),
    ensures
        in_order(p, keys.count(), less),
{
    assert forall|a: int, b: int| 0 <= a < b < p.len() implies less(
        #[trigger] p[a] as int,
        #[trigger] p[b] as int,
    ) || (!less(p[b] as int, p[a] as int) && p[a] < p[b]) by {
        assert(stands_before(keys, p[a] as int, p[b] as int));
        assert(keys.before(p[a] as int, p[b] as int) == less(p[a] as int, p[b] as int));
        assert(keys.before(p[b] as int, p[a] as int) == less(p[b] as int, p[a] as int));
    }
}

/// The positions of the items in sorted order.
pub fn stable_order<K: Ranking>(keys: &K) -> (p: Vec<usize>)
    ensures
        is_stable_order(keys, p@),
{
    let n = keys.len();
    let mut p: Vec<usize> = Vec::new();
    let mut i: usize = 0;
    while i < n
        invariant
            n == keys.count(),
            i <= n,
            p@.len() == i,
            p@.no_duplicates(),
            forall|a: int| 0 <= a < i ==> #[trigger] p@[a] < i,
            forall|a: int, b: int|
                0 <= a < b < i ==> stands_before(
                    keys,
                    #[trigger] p@[a] as int,
                    #[trigger] p@[b] as int,
                ),
        decreases n - i,
    {
        let mut at: usize = i;
        while at > 0 && keys.comes_before(i, p[at - 1])
            invariant
                n == keys.count(),
                at <= i < n,
                p@.len() == i,
                forall|a: int| 0 <= a < i ==> #[trigger] p@[a] < i,
                forall|a: int| at <= a < i ==> keys.before(i as int, #[trigger] p@[a] as int),
            decreases at,
        {
            at = at - 1;
        }
        let ghost before = p@;
        proof {
            assert forall|a: int| 0 <= a < at implies stands_before(
                keys,
                #[trigger] before[a] as int,
                i as int,
            ) by {
                let last = before[at - 1] as int;
                if a < at - 1 {
                    assert(stands_before(keys, before[a] as int, last));
                }
                keys.weak_order(i as int, before[a] as int, last);
                keys.weak_order(before[a] as int, last, i as int);
                keys.weak_order(i as int, last, before[a] as int);
                keys.weak_order(i as int, before[a] as int, i as int);
            }
        }
        p.insert(at, i);
        proof {
            assert forall|a: int, b: int| 0 <= a < b < p@.len() implies stands_before(
                keys,
                #[trigger] p@[a] as int,
                #[trigger] p@[b] as int,
            ) by {
                if a == at {
                    assert(p@[b] == before[b - 1]);
                } else if b == at {
                    assert(p@[a] == before[a]);
                } else {
                    let x = if a < at {
                        a
                    } else {
                        a - 1
                    };
                    let y = if b < at {
                        b
                    } else {
                        b - 1
                    };
                    assert(p@[a] == before[x]);
                    assert(p@[b] == before[y]);
                }
            }
            assert forall|a: int, b: int|
                0 <= a < p@.len() && 0 <= b < p@.len() && a != b implies p@[a] != p@[b] by {
                let x = if a < at {
                    a
                } else {
                    a - 1
                };
                let y = if b < at {
                    b
                } else {
                    b - 1
                };
                if a != at {
                    assert(p@[a] == before[x]);
                }
                if b != at {
                    assert(p@[b] == before[y]);
                }
            }
        }
        i = i + 1;
    }
    p
}

/// Numbers, smallest first.
pub struct Ascending {
    pub keys: Vec<u64>,
}

impl Ranking for Ascending {
    open spec fn count(&self) -> nat {
        self.keys@.len()
    }

    open spec fn before(&self, i: int, j: int) -> bool {
        self.keys@[i] < self.keys@[j]
    }

    proof fn weak_order(&self, i: int, j: int, k: int) {
    }

    fn len(&self) -> usize {
        self.keys.len()
    }

    fn comes_before(&self, i: usize, j: usize) -> bool {
        self.keys[i] < self.keys[j]
    }
}

/// Numbers, largest first.
pub struct Descending {
    pub keys: Vec<u64>,
}

impl Ranking for Descending {
    open spec fn count(&self) -> nat {
        self.keys@.len()
    }

    open spec fn before(&self, i: int, j: int) -> bool {
        self.keys@[i] > self.keys@[j]
    }

    proof fn weak_order(&self, i: int, j: int, k: int) {
    }

    fn len(&self) -> usize {
        self.keys.len()
    }

    fn comes_before(&self, i: usize, j: usize) -> bool {
        self.keys[i] > self.keys[j]
    }
}

/// Texts in the order of their characters.
pub struct Alphabetical {
    pub keys: Vec<String>,
}

impl Ranking for Alphabetical {
    open spec fn count(&self) -> nat {
        self.keys@.len()
    }

    open spec fn before(&self, i: int, j: int) -> bool {
        lex_below(self.keys@[i]@, self.keys@[j]@)
    }

    proof fn weak_order(&self, i: int, j: int, k: int) {
        lemma_lex(self.keys@[i]@, self.keys@[j]@, self.keys@[k]@);
        lemma_lex(self.keys@[i]@, self.keys@[k]@, self.keys@[j]@);
        lemma_lex(self.keys@[k]@, self.keys@[j]@, self.keys@[i]@);
    }

    fn len(&self) -> usize {
        self.keys.len()
    }

    fn comes_before(&self, i: usize, j: usize) -> bool {
        str_lex_below(self.keys[i].as_str(), self.keys[j].as_str())
    }
}

/// A permutation holds every position.
pub proof fn lemma_permutation_hits(p: Seq<usize>, n: nat, x: int) -> (y: int)
    requires
        is_permutation(p, n),
        0 <= x < n,
    ensures
        0 <= y < n,
        p[y] == x,
{
    let s = p.map_values(|u: usize| u as int);
    assert(s.no_duplicates()) by {
        assert forall|i: int, j: int|
            0 <= i < s.len() && 0 <= j < s.len() && i != j implies s[i] != s[j] by {
            assert(p[i] != p[j]);
        }
    }
    s.unique_seq_to_set();
    let range = vstd::set_lib::set_int_range(0, n as int);
    vstd::set_lib::lemma_int_range(0, n as int);
    assert(s.to_set().subset_of(range));
    vstd::set_lib::lemma_subset_equality(s.to_set(), range);
    assert(s.to_set().contains(x));
    let y = choose|y: int| 0 <= y < s.len() && s[y] == x;
    y
}

/// The items of a list in the order that a permutation gives.
pub fn arranged<T>(items: Vec<T>, p: &Vec<usize>) -> (r: Vec<T>)
    requires
        is_permutation(p@, items@.len()),
    ensures
        r@.len() == items@.len(),
        forall|i: int| 0 <= i < r@.len() ==> #[trigger] r@[i] == items@[p@[i] as int],
{
    let ghost all = items@;
    let n = items.len();
    let mut left: Vec<Option<T>> = Vec::new();
    let mut rest = items;
    assert(rest@ =~= all.take(n as int));
    let mut i: usize = n;
    let mut tail: Vec<Option<T>> = Vec::new();
    while i > 0
        invariant
            n == all.len(),
            i <= n,
            rest@ == all.take(i as int),
            tail@.len() == n - i,
            forall|k: int| 0 <= k < n - i ==> #[trigger] tail@[k] == Some(all[n - 1 - k]),
        decreases i,
    {
        let x = rest.pop();
        assert(all.take(i as int).last() == all[i - 1]);
        assert(all.take(i as int).drop_last() =~= all.take(i - 1));
        tail.push(x);
        i = i - 1;
    }
    let mut i: usize = 0;
    while i < n
        invariant
            n == all.len(),
            i <= n,
            tail@.len() == n - i,
            forall|k: int| 0 <= k < n - i ==> #[trigger] tail@[k] == Some(all[n - 1 - k]),
            left@.len() == i,
            forall|k: int| 0 <= k < i ==> #[trigger] left@[k] == Some(all[k]),
        decreases n - i,
    {
        match tail.pop() {
            Some(x) => {
                left.push(x);
            },
            None => {},
        }
        i = i + 1;
    }
    let mut r: Vec<T> = Vec::new();
    let mut k: usize = 0;
    while k < n
        invariant
            n == all.len(),
            is_permutation(p@, n as nat),
            k <= n,
            left@.len() == n,
            r@.len() == k,
            forall|j: int| 0 <= j < k ==> #[trigger] r@[j] == all[p@[j] as int],
            forall|j: int|
                k <= j < n ==> left@[#[trigger] p@[j] as int] == Some(all[p@[j] as int]),
        decreases n - k,
    {
        let mut x: Option<T> = None;
        let at = p[k];
        assert(at < n);
        let ghost before = left@;
        left.set_and_swap(at, &mut x);
        match x {
            Some(v) => {
                r.push(v);
            },
            None => {},
        }
        proof {
            assert(before[at as int] == Some(all[at as int]));
            assert forall|j: int| k < j < n implies left@[#[trigger] p@[j] as int] == Some(
                all[p@[j] as int],
            ) by {
                assert(p@[j] != p@[k as int]);
                assert(p@[j] < n);
            }
        }
        k = k + 1;
    }
    r
}

} // verus!
