//! Duplicate detector: artifacts that share one logical identity, and what
//! their extra copies cost.
use vstd::prelude::*;

use crate::model::{clone_meta, identity_of, same_meta, ModelMeta};
use crate::order::{in_order, is_stable_order, lemma_in_order, stable_order, Ascending, Descending};
use crate::text::{owned, same};

verus! {

#[derive(Debug, Clone)]
pub struct DupGroup {
    pub identity: String,
    /// Cheapest first.
    pub members: Vec<ModelMeta>,
    /// The footprint beyond the cheapest copy.
    pub wasted_bytes: u64,
}

/// The positions of the first `n` models with an identity.
pub open spec fn members_upto(models: Seq<ModelMeta>, id: Seq<char>, n: int) -> Seq<int>
    decreases n,
{
    if n <= 0 {
        Seq::empty()
    } else {
        let rest = members_upto(models, id, n - 1);
        if identity_of(models[n - 1]) == id {
            rest.push(n - 1)
        } else {
            rest
        }
    }
}

/// The positions of the models with an identity.
pub open spec fn members_of(models: Seq<ModelMeta>, id: Seq<char>) -> Seq<int> {
    members_upto(models, id, models.len() as int)
}

/// The footprint of the models at a list of positions.
pub open spec fn footprint_at(models: Seq<ModelMeta>, at: Seq<int>) -> nat
    decreases at.len(),
{
    if at.len() == 0 {
        0
    } else {
        footprint_at(models, at.drop_last()) + models[at.last()].footprint as nat
    }
}

/// The footprint of all models.
pub open spec fn total_footprint(models: Seq<ModelMeta>) -> nat
    decreases models.len(),
{
    if models.len() == 0 {
        0
    } else {
        total_footprint(models.drop_last()) + models.last().footprint as nat
    }
}

/// The copies of each identity can be counted together.
pub open spec fn copies_countable(models: Seq<ModelMeta>) -> bool {
    forall|id: Seq<char>| footprint_at(models, #[trigger] members_of(models, id)) <= u64::MAX
}

/// The group holds the copies with its identity, cheapest first, and counts
/// what all but the cheapest cost.
pub open spec fn is_dup_group(models: Seq<ModelMeta>, g: DupGroup) -> bool {
    let at = members_of(models, g.identity@);
    &&& at.len() >= 2
    &&& g.members@.len() == at.len()
    &&& is_sorted_copy(models, at, g.members@)
    &&& g.wasted_bytes == footprint_at(models, at) - g.members@[0].footprint
}

/// Compares the models at a list of positions by footprint.
pub open spec fn cheaper(models: Seq<ModelMeta>, at: Seq<int>) -> spec_fn(int, int) -> bool {
    |i: int, j: int| models[at[i]].footprint < models[at[j]].footprint
}

/// `v` holds the models at a list of positions, cheapest first.
pub open spec fn is_sorted_copy(models: Seq<ModelMeta>, at: Seq<int>, v: Seq<ModelMeta>) -> bool {
    exists|p: Seq<usize>|
        {
            &&& #[trigger] in_order(
                p,
                at.len(),
                cheaper(models, at),
            )
            &&& v.len() == at.len()
            &&& forall|i: int| 0 <= i < v.len() ==> same_meta(#[trigger] v[i], models[at[p[i] as int]])
        }
}

/// The groups are those of the models: one for each identity with two copies
/// or more, the most wasteful first.
pub open spec fn are_duplicates(models: Seq<ModelMeta>, groups: Seq<DupGroup>) -> bool {
    &&& forall|i: int| 0 <= i < groups.len() ==> is_dup_group(models, #[trigger] groups[i])
    &&& forall|i: int, j: int|
        0 <= i < j < groups.len() ==> (#[trigger] groups[i]).identity@ != (
        #[trigger] groups[j]).identity@ && groups[i].wasted_bytes >= groups[j].wasted_bytes
    &&& forall|m: int|
        0 <= m < models.len() && members_of(models, identity_of(models[m])).len() >= 2 ==> has_group(
            groups,
            identity_of(#[trigger] models[m]),
        )
}

/// One of the groups has an identity.
pub open spec fn has_group(groups: Seq<DupGroup>, id: Seq<char>) -> bool {
    exists|i: int| 0 <= i < groups.len() && (#[trigger] groups[i]).identity@ == id
}

/// The positions of the models with an identity.
pub fn positions_of(ids: &Vec<String>, models: &Vec<ModelMeta>, id: &str) -> (at: Vec<usize>)
    requires
        ids@.len() == models@.len(),
        forall|i: int| 0 <= i < ids@.len() ==> (#[trigger] ids@[i])@ == identity_of(models@[i]),
    ensures
        at@.len() == members_of(models@, id@).len(),
        forall|k: int|
            0 <= k < at@.len() ==> #[trigger] at@[k] == members_of(models@, id@)[k] && at@[k]
                < models@.len(),
{
    let mut at: Vec<usize> = Vec::new();
    let mut i: usize = 0;
    while i < ids.len()
        invariant
            ids@.len() == models@.len(),
            forall|j: int| 0 <= j < ids@.len() ==> (#[trigger] ids@[j])@ == identity_of(models@[j]),
            i <= ids@.len(),
            at@.len() == members_upto(models@, id@, i as int).len(),
            forall|k: int|
                0 <= k < at@.len() ==> #[trigger] at@[k] == members_upto(
                    models@,
                    id@,
                    i as int,
                )[k] && at@[k] < i,
        decreases ids@.len() - i,
    {
        if same(ids[i].as_str(), id) {
            at.push(i);
        }
        i = i + 1;
    }
    at
}

/// The models at a list of positions, cheapest first.
pub fn sorted_by_footprint(models: &Vec<ModelMeta>, at: &Vec<usize>) -> (r: Vec<ModelMeta>)
    requires
        forall|k: int| 0 <= k < at@.len() ==> #[trigger] at@[k] < models@.len(),
    ensures
        is_sorted_copy(models@, Seq::new(at@.len(), |k: int| at@[k] as int), r@),
{
    let mut keys: Vec<u64> = Vec::new();
    let mut i: usize = 0;
    while i < at.len()
        invariant
            forall|k: int| 0 <= k < at@.len() ==> #[trigger] at@[k] < models@.len(),
            i <= at@.len(),
            keys@.len() == i,
            forall|k: int| 0 <= k < i ==> #[trigger] keys@[k] == models@[at@[k] as int].footprint,
        decreases at@.len() - i,
    {
        keys.push(models[at[i]].footprint);
        i = i + 1;
    }
    let ranking = Ascending { keys };
    let p = stable_order(&ranking);
    let mut r: Vec<ModelMeta> = Vec::new();
    let mut k: usize = 0;
    while k < p.len()
        invariant
            is_stable_order(&ranking, p@),
            ranking.keys@.len() == at@.len(),
            forall|j: int| 0 <= j < at@.len() ==> #[trigger] at@[j] < models@.len(),
            k <= p@.len(),
            r@.len() == k,
            forall|j: int|
                0 <= j < k ==> same_meta(#[trigger] r@[j], models@[at@[p@[j] as int] as int]),
        decreases p@.len() - k,
    {
        assert(p@[k as int] < at@.len());
        r.push(clone_meta(&models[at[p[k]]]));
        k = k + 1;
    }
    proof {
        let pos = Seq::new(at@.len(), |k: int| at@[k] as int);
        let less = cheaper(models@, pos);
        lemma_in_order(&ranking, p@, less);
        assert(in_order(p@, pos.len(), less));
        assert forall|j: int| 0 <= j < r@.len() implies same_meta(
            #[trigger] r@[j],
            models@[pos[p@[j] as int]],
        ) by {
            assert(p@[j] < at@.len());
        }
    }
    r
}

/// The footprint of the models at a list of positions.
pub fn sum_at(models: &Vec<ModelMeta>, at: &Vec<usize>) -> (r: u64)
    requires
        forall|k: int| 0 <= k < at@.len() ==> #[trigger] at@[k] < models@.len(),
        footprint_at(models@, Seq::new(at@.len(), |k: int| at@[k] as int)) <= u64::MAX,
    ensures
        r == footprint_at(models@, Seq::new(at@.len(), |k: int| at@[k] as int)),
{
    let ghost pos = Seq::new(at@.len(), |k: int| at@[k] as int);
    let mut r: u64 = 0;
    let mut i: usize = 0;
    assert(pos.take(0) =~= Seq::<int>::empty());
    while i < at.len()
        invariant
            pos == Seq::new(at@.len(), |k: int| at@[k] as int),
            forall|k: int| 0 <= k < at@.len() ==> #[trigger] at@[k] < models@.len(),
            footprint_at(models@, pos) <= u64::MAX,
            i <= at@.len(),
            r == footprint_at(models@, pos.take(i as int)),
        decreases at@.len() - i,
    {
        proof {
            lemma_prefix_sum(models@, pos, i + 1);
            assert(pos.take(i + 1).drop_last() =~= pos.take(i as int));
            assert(pos.take(i + 1).last() == at@[i as int]);
        }
        r = r + models[at[i]].footprint;
        i = i + 1;
    }
    assert(pos.take(i as int) =~= pos);
    r
}

proof fn lemma_prefix_sum(models: Seq<ModelMeta>, at: Seq<int>, n: int)
    requires
        0 <= n <= at.len(),
    ensures
        footprint_at(models, at.take(n)) <= footprint_at(models, at),
    decreases at.len() - n,
{
    if n < at.len() {
        lemma_prefix_sum(models, at, n + 1);
        assert(at.take(n + 1).drop_last() =~= at.take(n));
    } else {
        assert(at.take(n) =~= at);
    }
}

/// An item of the sum is at most the sum.
proof fn lemma_item_below_sum(models: Seq<ModelMeta>, at: Seq<int>, k: int)
    requires
        0 <= k < at.len(),
    ensures
        models[at[k]].footprint <= footprint_at(models, at),
    decreases at.len(),
{
    if k < at.len() - 1 {
        lemma_item_below_sum(models, at.drop_last(), k);
    }
}

fn build_group(models: &Vec<ModelMeta>, id: &str, at: &Vec<usize>) -> (g: DupGroup)
    requires
        Seq::new(at@.len(), |k: int| at@[k] as int) == members_of(models@, id@),
        forall|k: int| 0 <= k < at@.len() ==> #[trigger] at@[k] < models@.len(),
        at@.len() >= 2,
        copies_countable(models@),
    ensures
        is_dup_group(models@, g),
        g.identity@ == id@,
{
    let ghost pos = Seq::new(at@.len(), |k: int| at@[k] as int);
    assert(footprint_at(models@, members_of(models@, id@)) <= u64::MAX);
    let members = sorted_by_footprint(models, at);
    let total = sum_at(models, at);
    proof {
        let p = choose|p: Seq<usize>|
            {
                &&& #[trigger] in_order(
                    p,
                    pos.len(),
                    cheaper(models@, pos),
                )
                &&& members@.len() == pos.len()
                &&& forall|i: int|
                    0 <= i < members@.len() ==> same_meta(
                        #[trigger] members@[i],
                        models@[pos[p[i] as int]],
                    )
            };
        assert(same_meta(members@[0], models@[pos[p[0] as int]]));
        lemma_item_below_sum(models@, pos, p[0] as int);
    }
    let wasted_bytes: u64 = total - members[0].footprint;
    DupGroup { identity: owned(id), members, wasted_bytes }
}

fn clone_group(models: &Vec<ModelMeta>, g: &DupGroup) -> (r: DupGroup)
    requires
        is_dup_group(models@, *g),
    ensures
        is_dup_group(models@, r),
        r.identity@ == g.identity@,
        r.wasted_bytes == g.wasted_bytes,
{
    let mut members: Vec<ModelMeta> = Vec::new();
    let mut i: usize = 0;
    while i < g.members.len()
        invariant
            i <= g.members@.len(),
            members@.len() == i,
            forall|j: int| 0 <= j < i ==> same_meta(#[trigger] members@[j], g.members@[j]),
        decreases g.members@.len() - i,
    {
        members.push(clone_meta(&g.members[i]));
        i = i + 1;
    }
    proof {
        let at = members_of(models@, g.identity@);
        let p = choose|p: Seq<usize>|
            {
                &&& #[trigger] in_order(
                    p,
                    at.len(),
                    cheaper(models@, at),
                )
                &&& g.members@.len() == at.len()
                &&& forall|i: int|
                    0 <= i < g.members@.len() ==> same_meta(
                        #[trigger] g.members@[i],
                        models@[at[p[i] as int]],
                    )
            };
        assert(in_order(
            p,
            at.len(),
            cheaper(models@, at),
        ));
        assert forall|i: int| 0 <= i < members@.len() implies same_meta(
            #[trigger] members@[i],
            models@[at[p[i] as int]],
        ) by {
            assert(same_meta(g.members@[i], models@[at[p[i] as int]]));
        }
        assert(is_sorted_copy(models@, at, members@));
        assert(same_meta(members@[0], g.members@[0]));
    }
    DupGroup { identity: owned(g.identity.as_str()), members, wasted_bytes: g.wasted_bytes }
}

/// Finds the artifacts that are there more than once.
pub fn find_duplicates(models: &Vec<ModelMeta>) -> (r: Vec<DupGroup>)
    requires
        copies_countable(models@),
    ensures
        are_duplicates(models@, r@),
{
    let n = models.len();
    let mut ids: Vec<String> = Vec::new();
    let mut i: usize = 0;
    while i < n
        invariant
            n == models@.len(),
            i <= n,
            ids@.len() == i,
            forall|j: int| 0 <= j < i ==> (#[trigger] ids@[j])@ == identity_of(models@[j]),
        decreases n - i,
    {
        ids.push(models[i].identity());
        i = i + 1;
    }
    let mut groups: Vec<DupGroup> = Vec::new();
    let mut wasted: Vec<u64> = Vec::new();
    let mut m: usize = 0;
    while m < n
        invariant
            n == models@.len(),
            m <= n,
            ids@.len() == n,
            copies_countable(models@),
            forall|j: int| 0 <= j < n ==> (#[trigger] ids@[j])@ == identity_of(models@[j]),
            wasted@.len() == groups@.len(),
            forall|k: int|
                0 <= k < groups@.len() ==> is_dup_group(models@, #[trigger] groups@[k])
                    && wasted@[k] == groups@[k].wasted_bytes,
            forall|j: int, k: int|
                0 <= j < k < groups@.len() ==> (#[trigger] groups@[j]).identity@ != (
                #[trigger] groups@[k]).identity@,
            forall|k: int|
                0 <= k < m && members_of(models@, identity_of(models@[k])).len() >= 2 ==> has_group(
                    groups@,
                    identity_of(#[trigger] models@[k]),
                ),
        decreases n - m,
    {
        let seen = group_index(&groups, ids[m].as_str());
        let ghost before = groups@;
        if !seen {
            let at = positions_of(&ids, models, ids[m].as_str());
            if at.len() >= 2 {
                assert(Seq::new(at@.len(), |k: int| at@[k] as int) =~= members_of(
                    models@,
                    ids@[m as int]@,
                ));
                let g = build_group(models, ids[m].as_str(), &at);
                wasted.push(g.wasted_bytes);
                groups.push(g);
                assert(groups@[before.len() as int].identity@ == identity_of(models@[m as int]));
            }
        }
        assert forall|k: int|
            0 <= k < m + 1 && members_of(models@, identity_of(models@[k])).len() >= 2 implies has_group(
            groups@,
            identity_of(#[trigger] models@[k]),
        ) by {
            if k < m || seen {
                let id = identity_of(models@[k]);
                assert(has_group(before, id));
                let x = choose|x: int| 0 <= x < before.len() && (#[trigger] before[x]).identity@ == id;
                assert(groups@[x].identity@ == id);
            }
        }
        m = m + 1;
    }
    let ranking = Descending { keys: wasted };
    let p = stable_order(&ranking);
    let mut r: Vec<DupGroup> = Vec::new();
    let mut k: usize = 0;
    while k < p.len()
        invariant
            is_stable_order(&ranking, p@),
            ranking.keys@.len() == groups@.len(),
            k <= p@.len(),
            r@.len() == k,
            forall|j: int|
                0 <= j < groups@.len() ==> is_dup_group(models@, #[trigger] groups@[j])
                    && ranking.keys@[j] == groups@[j].wasted_bytes,
            forall|j: int|
                0 <= j < k ==> is_dup_group(models@, #[trigger] r@[j]) && r@[j].identity@
                    == groups@[p@[j] as int].identity@ && r@[j].wasted_bytes
                    == groups@[p@[j] as int].wasted_bytes,
        decreases p@.len() - k,
    {
        assert(p@[k as int] < groups@.len());
        r.push(clone_group(models, &groups[p[k]]));
        k = k + 1;
    }
    proof {
        assert forall|i: int, j: int| 0 <= i < j < r@.len() implies (#[trigger] r@[i]).identity@ != (
        #[trigger] r@[j]).identity@ && r@[i].wasted_bytes >= r@[j].wasted_bytes by {
            let a = p@[i] as int;
            let b = p@[j] as int;
            assert(p@[i] < groups@.len() && p@[j] < groups@.len());
            assert(crate::order::stands_before(&ranking, a, b));
            assert(a != b);
            if a < b {
                assert(groups@[a].identity@ != groups@[b].identity@);
            } else {
                assert(groups@[b].identity@ != groups@[a].identity@);
            }
        }
        assert forall|q: int|
            0 <= q < models@.len() && members_of(models@, identity_of(models@[q])).len()
                >= 2 implies has_group(r@, identity_of(#[trigger] models@[q])) by {
            let id = identity_of(models@[q]);
            assert(has_group(groups@, id));
            let x = choose|x: int| 0 <= x < groups@.len() && (#[trigger] groups@[x]).identity@ == id;
            let y = crate::order::lemma_permutation_hits(p@, groups@.len(), x);
            assert(r@[y].identity@ == id);
        }
    }
    r
}

fn group_index(groups: &Vec<DupGroup>, id: &str) -> (r: bool)
    ensures
        r == has_group(groups@, id@),
{
    let mut i: usize = 0;
    while i < groups.len()
        invariant
            i <= groups@.len(),
            forall|j: int| 0 <= j < i ==> (#[trigger] groups@[j]).identity@ != id@,
        decreases groups@.len() - i,
    {
        if same(groups[i].identity.as_str(), id) {
            return true;
        }
        i = i + 1;
    }
    false
}

/// The paths of a group's copies, the cheapest left out.
pub fn extra_copies(g: &DupGroup) -> (r: Vec<String>)
    ensures
        r@.len() == if g.members@.len() > 0 {
            g.members@.len() - 1
        } else {
            0
        },
        forall|i: int| 0 <= i < r@.len() ==> (#[trigger] r@[i])@ == g.members@[i + 1].path@,
{
    let mut r: Vec<String> = Vec::new();
    let mut i: usize = 1;
    while i < g.members.len()
        invariant
            1 <= i,
            i <= g.members@.len() || (i == 1 && g.members@.len() == 0),
            r@.len() == i - 1,
            forall|j: int| 0 <= j < r@.len() ==> (#[trigger] r@[j])@ == g.members@[j + 1].path@,
        decreases g.members@.len() - i,
    {
        r.push(owned(g.members[i].path.as_str()));
        i = i + 1;
    }
    r
}

/// The copy that a group keeps is one of the cheapest.
pub proof fn law_kept_copy_is_cheapest(models: Seq<ModelMeta>, g: DupGroup, k: int)
    requires
        is_dup_group(models, g),
        0 <= k < g.members@.len(),
    ensures
        g.members@[0].footprint <= g.members@[k].footprint,
{
    let at = members_of(models, g.identity@);
    let p = choose|p: Seq<usize>|
        {
            &&& #[trigger] in_order(
                p,
                at.len(),
                cheaper(models, at),
            )
            &&& g.members@.len() == at.len()
            &&& forall|i: int|
                0 <= i < g.members@.len() ==> same_meta(
                    #[trigger] g.members@[i],
                    models[at[p[i] as int]],
                )
        };
    assert(same_meta(g.members@[0], models[at[p[0] as int]]));
    assert(same_meta(g.members@[k], models[at[p[k] as int]]));
    if k > 0 {
        let less = cheaper(models, at);
        assert(in_order(p, at.len(), less));
        assert(less(p[0] as int, p[k] as int) || !less(p[k] as int, p[0] as int));
    }
}

} // verus!
