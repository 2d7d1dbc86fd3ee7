//! What models are found, which of them are copies, and how they are listed.
use vstd::prelude::*;

use crate::dedup::{
    cheaper, find_duplicates, footprint_at, has_group, is_dup_group, members_of, members_upto,
    DupGroup,
};
use crate::model::{
    digits_end, identity_of, lemma_digits_end, same_meta, version_from, version_token, ModelFormat,
    ModelMeta,
};
use crate::order::{in_order, lemma_permutation_hits};
use crate::text::{decimal, is_digit, lowercased, trim};

verus! {

/// The identity spells the architecture (a question mark where it is unknown),
/// the format, and the weights in half GiB, to the nearest.
pub proof fn law_identity(m: &ModelMeta, r: String, n: nat)
    requires
        call_ensures(ModelMeta::identity, (m,), r),
        n * 536_870_912 <= m.weight_size + 268_435_456 < (n + 1) * 536_870_912,
    ensures
        r@ == (match m.arch {
            Some(a) => a@,
            None => "?"@,
        }) + "|"@ + (match m.format {
            ModelFormat::Gguf => "Gguf"@,
            ModelFormat::SafetensorsDir => "SafetensorsDir"@,
        }) + "|"@ + decimal(n),
        r@ == identity_of(*m),
{
    assert((m.weight_size + 268_435_456) / 536_870_912 == n);
}

/// A dot between two digits.
pub open spec fn is_dotted(s: Seq<char>, d: int) -> bool {
    0 < d < s.len() - 1 && s[d] == '.' && is_digit(s[d - 1]) && is_digit(s[d + 1])
}

/// The digits before and behind the dot, as far as they go.
pub open spec fn is_around(s: Seq<char>, d: int, a: int, b: int) -> bool {
    &&& 0 <= a < d < b <= s.len()
    &&& forall|k: int| a <= k < b && k != d ==> is_digit(#[trigger] s[k])
    &&& a == 0 || !is_digit(s[a - 1])
    &&& b == s.len() || !is_digit(s[b])
}

proof fn lemma_run_of_digits(s: Seq<char>, i: int)
    requires
        0 <= i <= s.len(),
    ensures
        i <= digits_end(s, i) <= s.len(),
        forall|k: int| i <= k < digits_end(s, i) ==> is_digit(#[trigger] s[k]),
        digits_end(s, i) == s.len() || !is_digit(s[digits_end(s, i)]),
    decreases s.len() - i,
{
    if i < s.len() && is_digit(s[i]) {
        lemma_run_of_digits(s, i + 1);
    }
}

proof fn lemma_version(s: Seq<char>, i: int)
    requires
        0 <= i <= s.len(),
        forall|d: int| d <= i ==> !#[trigger] is_dotted(s, d),
        i == 0 || i == s.len() || !is_digit(s[i - 1]) || !is_digit(s[i]),
    ensures
        version_from(s, i) is None ==> forall|d: int| !#[trigger] is_dotted(s, d),
        version_from(s, i) is Some ==> exists|d: int, a: int, b: int|
            {
                &&& #[trigger] is_around(s, d, a, b)
                &&& is_dotted(s, d)
                &&& forall|e: int| e < d ==> !#[trigger] is_dotted(s, e)
                &&& version_from(s, i) == Some(s.subrange(a, b))
            },
    decreases s.len() - i,
{
    if i < s.len() {
        if !is_digit(s[i]) {
            lemma_version(s, i + 1);
        } else {
            let j = digits_end(s, i);
            lemma_run_of_digits(s, i);
            lemma_digits_end(s, i);
            assert forall|d: int| d < j implies !#[trigger] is_dotted(s, d) by {
                if i <= d {
                    assert(is_digit(s[d]));
                }
            }
            if j < s.len() {
                lemma_run_of_digits(s, j + 1);
                assert(is_dotted(s, j) <==> s[j] == '.' && digits_end(s, j + 1) > j + 1);
            }
            if crate::model::version_end(s, i) is Some {
                let b = digits_end(s, j + 1);
                assert(is_dotted(s, j));
                assert(i == 0 || !is_digit(s[i - 1]));
                assert(is_around(s, j, i, b));
            } else {
                lemma_version(s, j);
            }
        }
    }
}

/// The version is what stands around the first dot between two digits, all
/// digits of it; without such a dot there is none.
pub proof fn law_version_is_around_the_first_dot(name: &str, r: Option<String>)
    requires
        call_ensures(version_token, (name,), r),
    ensures
        r is None <==> forall|d: int| !#[trigger] is_dotted(name@, d),
        r is Some ==> exists|d: int, a: int, b: int|
            {
                &&& #[trigger] is_around(name@, d, a, b)
                &&& is_dotted(name@, d)
                &&& forall|e: int| e < d ==> !#[trigger] is_dotted(name@, e)
                &&& (r->0)@ == name@.subrange(a, b)
            },
{
    lemma_version(name@, 0);
    if r is Some {
        assert(version_from(name@, 0) == Some((r->0)@));
    }
}

/// Models with a declared family are listed by architecture and version, or
/// by architecture and family name where it has no version, in small letters;
/// the others by identity.
pub proof fn law_group_key(m: &ModelMeta, r: String, id: String, family: &str, v: Option<String>)
    requires
        call_ensures(ModelMeta::group_key, (m,), r),
        call_ensures(ModelMeta::identity, (m,), id),
        m.basename is Some ==> family@ == lowercased(trim((m.basename->0)@)),
        call_ensures(version_token, (family,), v),
    ensures
        m.basename is None || trim((m.basename->0)@).len() == 0 ==> r@ == id@,
        m.basename is Some && trim((m.basename->0)@).len() > 0 ==> r@ == lowercased(
            match m.arch {
                Some(a) => a@,
                None => "?"@,
            },
        ) + "|"@ + (match v {
            Some(t) => t@,
            None => family@,
        }),
{
}

/// The bytes of the first `n` models with an identity.
pub open spec fn copies_bytes(models: Seq<ModelMeta>, id: Seq<char>, n: int) -> int
    decreases n,
{
    if n <= 0 {
        0
    } else if identity_of(models[n - 1]) == id {
        copies_bytes(models, id, n - 1) + models[n - 1].footprint
    } else {
        copies_bytes(models, id, n - 1)
    }
}

/// The positions of an identity are those of its models.
pub proof fn lemma_members(models: Seq<ModelMeta>, id: Seq<char>, n: int)
    requires
        0 <= n <= models.len(),
    ensures
        footprint_at(models, members_upto(models, id, n)) == copies_bytes(models, id, n),
        forall|k: int|
            0 <= k < members_upto(models, id, n).len() ==> 0 <= #[trigger] members_upto(
                models,
                id,
                n,
            )[k] < n && identity_of(models[members_upto(models, id, n)[k]]) == id,
        forall|m: int|
            0 <= m < n && identity_of(#[trigger] models[m]) == id ==> members_upto(
                models,
                id,
                n,
            ).contains(m),
    decreases n,
{
    if n > 0 {
        lemma_members(models, id, n - 1);
        let rest = members_upto(models, id, n - 1);
        let all = members_upto(models, id, n);
        if identity_of(models[n - 1]) == id {
            assert(all == rest.push(n - 1));
            assert(all.drop_last() =~= rest);
            assert forall|m: int| 0 <= m < n && identity_of(#[trigger] models[m]) == id implies
                all.contains(m) by {
                if m == n - 1 {
                    assert(all[rest.len() as int] == m);
                } else {
                    assert(rest.contains(m));
                    let k = choose|k: int| 0 <= k < rest.len() && rest[k] == m;
                    assert(all[k] == m);
                }
            }
        }
    }
}

/// The list holds a model with the same values.
pub open spec fn has_copy(list: Seq<ModelMeta>, m: ModelMeta) -> bool {
    exists|k: int| 0 <= k < list.len() && same_meta(#[trigger] list[k], m)
}

/// The model is one of those with an identity.
pub open spec fn is_one_of(models: Seq<ModelMeta>, id: Seq<char>, v: ModelMeta) -> bool {
    exists|m: int|
        0 <= m < models.len() && same_meta(v, #[trigger] models[m]) && identity_of(models[m]) == id
}

proof fn lemma_group(models: Seq<ModelMeta>, g: DupGroup)
    requires
        is_dup_group(models, g),
    ensures
        g.members@.len() >= 2,
        forall|k: int, l: int|
            0 <= k < l < g.members@.len() ==> (#[trigger] g.members@[k]).footprint <= (
            #[trigger] g.members@[l]).footprint,
        forall|k: int|
            0 <= k < g.members@.len() ==> is_one_of(models, g.identity@, #[trigger] g.members@[k]),
        forall|m: int|
            0 <= m < models.len() && identity_of(#[trigger] models[m]) == g.identity@ ==> has_copy(
                g.members@,
                models[m],
            ),
{
    let at = members_of(models, g.identity@);
    lemma_members(models, g.identity@, models.len() as int);
    let v = g.members@;
    let p = choose|p: Seq<usize>|
        {
            &&& #[trigger] in_order(
                p,
                at.len(),
                cheaper(models, at),
            )
            &&& v.len() == at.len()
            &&& forall|i: int|
                0 <= i < v.len() ==> same_meta(#[trigger] v[i], models[at[p[i] as int]])
        };
    assert forall|k: int| 0 <= k < v.len() implies is_one_of(
        models,
        g.identity@,
        #[trigger] v[k],
    ) by {
        let m = at[p[k] as int];
        assert(p[k] < at.len());
        assert(same_meta(v[k], models[m]));
    }
    assert forall|m: int| 0 <= m < models.len() && identity_of(#[trigger] models[m])
        == g.identity@ implies has_copy(v, models[m]) by {
        assert(at.contains(m));
        let x = choose|x: int| 0 <= x < at.len() && at[x] == m;
        let k = lemma_permutation_hits(p, at.len(), x);
        assert(same_meta(v[k], models[at[p[k] as int]]));
    }
    assert forall|k: int, l: int| 0 <= k < l < v.len() implies (#[trigger] v[k]).footprint <= (
    #[trigger] v[l]).footprint by {
        assert(p[k] < at.len() && p[l] < at.len());
    }
}

/// The copies of a group: each model with its identity, the cheapest first,
/// and as waste what all of them but the first hold. The groups come the most
/// wasteful first, one for an identity.
pub proof fn law_copies_of_a_group(models: &Vec<ModelMeta>, r: Vec<DupGroup>, i: int)
    requires
        call_ensures(find_duplicates, (models,), r),
        0 <= i < r@.len(),
    ensures
        r@[i].members@.len() >= 2,
        r@[i].wasted_bytes + r@[i].members@[0].footprint == copies_bytes(
            models@,
            r@[i].identity@,
            models@.len() as int,
        ),
        forall|k: int, l: int|
            0 <= k < l < r@[i].members@.len() ==> (#[trigger] r@[i].members@[k]).footprint <= (
            #[trigger] r@[i].members@[l]).footprint,
        forall|k: int|
            0 <= k < r@[i].members@.len() ==> is_one_of(
                models@,
                r@[i].identity@,
                #[trigger] r@[i].members@[k],
            ),
        forall|m: int|
            0 <= m < models@.len() && identity_of(#[trigger] models@[m]) == r@[i].identity@
                ==> has_copy(r@[i].members@, models@[m]),
        forall|j: int|
            0 <= j < r@.len() && j != i ==> (#[trigger] r@[j]).identity@ != r@[i].identity@,
        forall|j: int| i <= j < r@.len() ==> (#[trigger] r@[j]).wasted_bytes <= r@[i].wasted_bytes,
{
    let g = r@[i];
    assert(is_dup_group(models@, g));
    lemma_group(models@, g);
    lemma_members(models@, g.identity@, models@.len() as int);
    assert forall|j: int| 0 <= j < r@.len() && j != i implies (#[trigger] r@[j]).identity@
        != g.identity@ by {
        if j < i {
            assert(r@[j].identity@ != r@[i].identity@);
        } else {
            assert(r@[i].identity@ != r@[j].identity@);
        }
    }
}

/// Two models of one identity have a group.
pub proof fn law_copies_are_found(models: &Vec<ModelMeta>, r: Vec<DupGroup>, m: int, n: int)
    requires
        call_ensures(find_duplicates, (models,), r),
        0 <= m < n < models@.len(),
        identity_of(models@[m]) == identity_of(models@[n]),
    ensures
        exists|i: int|
            0 <= i < r@.len() && (#[trigger] r@[i]).identity@ == identity_of(models@[m]),
{
    let all = models@;
    let id = identity_of(all[m]);
    let at = members_of(all, id);
    lemma_members(all, id, all.len() as int);
    assert(at.contains(m) && at.contains(n));
    let x = choose|x: int| 0 <= x < at.len() && at[x] == m;
    let y = choose|y: int| 0 <= y < at.len() && at[y] == n;
    assert(x != y);
    assert(at.len() >= 2);
    assert(has_group(r@, identity_of(all[m])));
}

} // verus!
