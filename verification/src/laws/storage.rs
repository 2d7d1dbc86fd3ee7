//! What the index claims, held against what a scan found; and removals.
use vstd::prelude::*;

use crate::order::{in_order, lemma_permutation_hits};
use crate::storage::{
    absent_upto, bytes_upto, existing_upto, has_match, lacking, lacking_upto, listed, matched_bytes,
    matched_count, measured_upto, missing_views, name_below, orphaned_views, path_below,
    reconcile_registered_vs_found, removal_plan, same_file, Entry, Listed, Measured, Reconciliation,
    RemovalPlan,
};
use crate::text::{lex_below, texts};

verus! {

/// Two entries are of one file: a path of one, as given or canonical, is a
/// path of the other. An empty canonical path is none.
pub open spec fn one_file(a: Entry, b: Entry) -> bool {
    ||| a.0@ == b.0@
    ||| a.0@ == b.1@ && b.1@.len() > 0
    ||| a.1@ == b.0@ && a.1@.len() > 0
    ||| a.1@ == b.1@ && a.1@.len() > 0
}

/// The list has an entry of the same file.
pub open spec fn is_among(e: Entry, list: Seq<Entry>) -> bool {
    exists|j: int| 0 <= j < list.len() && one_file(e, #[trigger] list[j])
}

proof fn lemma_among(e: Entry, list: Seq<Entry>)
    ensures
        is_among(e, list) == has_match(e, list),
{
    if has_match(e, list) {
        let j = choose|j: int| 0 <= j < list.len() && same_file(e, #[trigger] list[j]);
        assert(one_file(e, list[j]));
    }
    if is_among(e, list) {
        let j = choose|j: int| 0 <= j < list.len() && one_file(e, #[trigger] list[j]);
        assert(same_file(e, list[j]));
    }
}

/// How many of the first `n` entries are among others, and their bytes.
pub open spec fn healthy_upto(list: Seq<Entry>, others: Seq<Entry>, n: int) -> (int, int)
    decreases n,
{
    if n <= 0 {
        (0, 0)
    } else {
        let (count, bytes) = healthy_upto(list, others, n - 1);
        if is_among(list[n - 1], others) {
            (count + 1, bytes + list[n - 1].2)
        } else {
            (count, bytes)
        }
    }
}

/// The bytes of the first `n` entries together.
pub open spec fn sum_upto(list: Seq<Entry>, n: int) -> int
    decreases n,
{
    if n <= 0 {
        0
    } else {
        sum_upto(list, n - 1) + list[n - 1].2
    }
}

proof fn lemma_sums(list: Seq<Entry>, others: Seq<Entry>, n: int)
    requires
        0 <= n <= list.len(),
    ensures
        healthy_upto(list, others, n) == (
            matched_count(list, others, n) as int,
            matched_bytes(list, others, n) as int,
        ),
        sum_upto(list, n) == bytes_upto(list, n),
        forall|x: int|
            0 <= x < lacking_upto(list, others, n).len() ==> 0 <= #[trigger] lacking_upto(
                list,
                others,
                n,
            )[x] < n && !is_among(list[lacking_upto(list, others, n)[x]], others),
        forall|k: int|
            0 <= k < n && !is_among(#[trigger] list[k], others) ==> lacking_upto(
                list,
                others,
                n,
            ).contains(k),
    decreases n,
{
    if n > 0 {
        lemma_sums(list, others, n - 1);
        lemma_among(list[n - 1], others);
        let rest = lacking_upto(list, others, n - 1);
        let all = lacking_upto(list, others, n);
        assert forall|k: int| 0 <= k < n && !is_among(#[trigger] list[k], others) implies
            all.contains(k) by {
            if k == n - 1 {
                assert(all[rest.len() as int] == k);
            } else {
                assert(rest.contains(k));
                let x = choose|x: int| 0 <= x < rest.len() && rest[x] == k;
                assert(all[x] == k);
            }
        }
    }
}

/// The list holds the path, the name and the bytes of an entry.
pub open spec fn is_listed(v: Seq<Listed>, e: Entry) -> bool {
    exists|i: int|
        0 <= i < v.len() && (#[trigger] v[i]).path == e.0@ && v[i].name == e.3@ && v[i].bytes == e.2
}

/// What is listed is an entry that others lack.
pub open spec fn is_lacked(list: Seq<Entry>, others: Seq<Entry>, l: Listed) -> bool {
    exists|k: int|
        {
            &&& 0 <= k < list.len()
            &&& l.path == (#[trigger] list[k]).0@
            &&& l.name == list[k].3@
            &&& l.bytes == list[k].2
            &&& !is_among(list[k], others)
        }
}

proof fn lemma_lists(list: Seq<Entry>, others: Seq<Entry>, v: Seq<Listed>)
    requires
        crate::storage::lists_by_path(list, lacking(list, others), v),
    ensures
        forall|i: int| 0 <= i < v.len() ==> is_lacked(list, others, #[trigger] v[i]),
        forall|k: int|
            0 <= k < list.len() && !is_among(#[trigger] list[k], others) ==> is_listed(v, list[k]),
        forall|i: int, j: int|
            0 <= i < j < v.len() ==> !lex_below((#[trigger] v[j]).path, (#[trigger] v[i]).path),
{
    let at = lacking(list, others);
    let p = choose|p: Seq<usize>|
        #[trigger] in_order(p, at.len(), path_below(list, at)) && v.len() == at.len() && forall|
            i: int,
        |
            0 <= i < v.len() ==> #[trigger] v[i] == listed(list[at[p[i] as int]]);
    lemma_sums(list, others, list.len() as int);
    assert forall|i: int| 0 <= i < v.len() implies is_lacked(list, others, #[trigger] v[i]) by {
        assert(p[i] < at.len());
        let k = at[p[i] as int];
        assert(v[i] == listed(list[k]));
    }
    assert forall|k: int| 0 <= k < list.len() && !is_among(#[trigger] list[k], others) implies
        is_listed(v, list[k]) by {
        assert(at.contains(k));
        let x = choose|x: int| 0 <= x < at.len() && at[x] == k;
        let i = lemma_permutation_hits(p, at.len(), x);
        assert(v[i] == listed(list[at[p[i] as int]]));
    }
    assert forall|i: int, j: int| 0 <= i < j < v.len() implies !lex_below(
        (#[trigger] v[j]).path,
        (#[trigger] v[i]).path,
    ) by {
        assert(p[i] < at.len() && p[j] < at.len());
        assert(v[i] == listed(list[at[p[i] as int]]));
        assert(v[j] == listed(list[at[p[j] as int]]));
        crate::text::lemma_lex(v[i].path, v[j].path, v[i].path);
    }
}

/// Rows with a file are counted with their bytes, rows without one are
/// missing, files without a row are orphaned; both lists go by path, and the
/// total is of everything that was found.
pub proof fn law_reconciliation(registered: &[Entry], found: &[Entry], r: Reconciliation)
    requires
        call_ensures(reconcile_registered_vs_found, (registered, found), r),
    ensures
        (r.ok_count as int, r.ok_bytes as int) == healthy_upto(
            registered@,
            found@,
            registered@.len() as int,
        ),
        r.total_bytes == sum_upto(found@, found@.len() as int),
        forall|i: int|
            0 <= i < r.missing@.len() ==> is_lacked(
                registered@,
                found@,
                (#[trigger] r.missing@[i])@,
            ),
        forall|i: int|
            0 <= i < r.orphaned@.len() ==> is_lacked(
                found@,
                registered@,
                (#[trigger] r.orphaned@[i])@,
            ),
        forall|k: int|
            0 <= k < registered@.len() && !is_among(#[trigger] registered@[k], found@)
                ==> is_listed(missing_views(r.missing@), registered@[k]),
        forall|k: int|
            0 <= k < found@.len() && !is_among(#[trigger] found@[k], registered@) ==> is_listed(
                orphaned_views(r.orphaned@),
                found@[k],
            ),
        forall|i: int, j: int|
            0 <= i < j < r.missing@.len() ==> !lex_below(
                (#[trigger] r.missing@[j]).path@,
                (#[trigger] r.missing@[i]).path@,
            ),
        forall|i: int, j: int|
            0 <= i < j < r.orphaned@.len() ==> !lex_below(
                (#[trigger] r.orphaned@[j]).path@,
                (#[trigger] r.orphaned@[i]).path@,
            ),
        r.ok_count + r.missing@.len() == registered@.len(),
{
    lemma_sums(registered@, found@, registered@.len() as int);
    lemma_sums(found@, registered@, found@.len() as int);
    lemma_lists(registered@, found@, missing_views(r.missing@));
    lemma_lists(found@, registered@, orphaned_views(r.orphaned@));
    crate::storage::law_rows_are_ok_or_missing(registered@, found@, r);
    assert forall|i: int| 0 <= i < r.missing@.len() implies is_lacked(
        registered@,
        found@,
        (#[trigger] r.missing@[i])@,
    ) by {
        assert(missing_views(r.missing@)[i] == r.missing@[i]@);
    }
    assert forall|i: int| 0 <= i < r.orphaned@.len() implies is_lacked(
        found@,
        registered@,
        (#[trigger] r.orphaned@[i])@,
    ) by {
        assert(orphaned_views(r.orphaned@)[i] == r.orphaned@[i]@);
    }
    assert forall|i: int, j: int| 0 <= i < j < r.missing@.len() implies !lex_below(
        (#[trigger] r.missing@[j]).path@,
        (#[trigger] r.missing@[i]).path@,
    ) by {
        assert(!lex_below(
            missing_views(r.missing@)[j].path,
            missing_views(r.missing@)[i].path,
        ));
    }
    assert forall|i: int, j: int| 0 <= i < j < r.orphaned@.len() implies !lex_below(
        (#[trigger] r.orphaned@[j]).path@,
        (#[trigger] r.orphaned@[i]).path@,
    ) by {
        assert(!lex_below(
            orphaned_views(r.orphaned@)[j].path,
            orphaned_views(r.orphaned@)[i].path,
        ));
    }
}

/// A listed artifact shows the path, the name and the bytes.
pub proof fn law_listed_as_they_are(r: Reconciliation, i: int)
    ensures
        0 <= i < r.missing@.len() ==> r.missing@[i]@ == (Listed {
            path: r.missing@[i].path@,
            name: r.missing@[i].name@,
            bytes: r.missing@[i].claimed_bytes,
        }) && missing_views(r.missing@)[i] == r.missing@[i]@,
        0 <= i < r.orphaned@.len() ==> r.orphaned@[i]@ == (Listed {
            path: r.orphaned@[i].path@,
            name: r.orphaned@[i].name@,
            bytes: r.orphaned@[i].bytes,
        }) && orphaned_views(r.orphaned@)[i] == r.orphaned@[i]@,
        missing_views(r.missing@).len() == r.missing@.len(),
        orphaned_views(r.orphaned@).len() == r.orphaned@.len(),
{
}

/// The bytes below the first `n` paths that exist.
pub open spec fn freed_upto(paths: Seq<Measured>, n: int) -> int
    decreases n,
{
    if n <= 0 {
        0
    } else {
        match paths[n - 1].1 {
            Some(b) => freed_upto(paths, n - 1) + b,
            None => freed_upto(paths, n - 1),
        }
    }
}

proof fn lemma_removal(paths: Seq<Measured>, n: int)
    requires
        0 <= n <= paths.len(),
    ensures
        measured_upto(paths, n) == freed_upto(paths, n),
        forall|x: int|
            0 <= x < existing_upto(paths, n).len() ==> 0 <= #[trigger] existing_upto(paths, n)[x]
                < n && paths[existing_upto(paths, n)[x]].1 is Some,
        forall|k: int|
            0 <= k < n && (#[trigger] paths[k]).1 is Some ==> existing_upto(paths, n).contains(k),
        forall|k: int|
            0 <= k < n && (#[trigger] paths[k]).1 is None ==> absent_upto(paths, n).contains(
                paths[k].0@,
            ),
        existing_upto(paths, n).len() + absent_upto(paths, n).len() == n,
        forall|x: int|
            0 <= x < absent_upto(paths, n).len() ==> exists|k: int|
                0 <= k < n && (#[trigger] paths[k]).1 is None && paths[k].0@
                    == #[trigger] absent_upto(paths, n)[x],
    decreases n,
{
    if n > 0 {
        lemma_removal(paths, n - 1);
        let rest = existing_upto(paths, n - 1);
        let all = existing_upto(paths, n);
        let gone = absent_upto(paths, n - 1);
        let none = absent_upto(paths, n);
        assert forall|k: int| 0 <= k < n && (#[trigger] paths[k]).1 is Some implies all.contains(
            k,
        ) by {
            if k == n - 1 {
                assert(all[rest.len() as int] == k);
            } else {
                assert(rest.contains(k));
                let x = choose|x: int| 0 <= x < rest.len() && rest[x] == k;
                assert(all[x] == k);
            }
        }
        assert forall|k: int| 0 <= k < n && (#[trigger] paths[k]).1 is None implies none.contains(
            paths[k].0@,
        ) by {
            if k == n - 1 {
                assert(none[gone.len() as int] == paths[k].0@);
            } else {
                assert(gone.contains(paths[k].0@));
                let x = choose|x: int| 0 <= x < gone.len() && gone[x] == paths[k].0@;
                assert(none[x] == paths[k].0@);
            }
        }
        assert forall|x: int| 0 <= x < none.len() implies exists|k: int|
            0 <= k < n && (#[trigger] paths[k]).1 is None && paths[k].0@ == #[trigger] none[x] by {
            if x < gone.len() {
                assert(gone[x] == none[x]);
                let k = choose|k: int|
                    0 <= k < n - 1 && (#[trigger] paths[k]).1 is None && paths[k].0@
                        == #[trigger] gone[x];
                assert(paths[k].1 is None);
            } else {
                assert(paths[n - 1].1 is None);
            }
        }
    }
}

/// The path is among those measured, with its bytes.
pub open spec fn is_measured(paths: Seq<Measured>, path: Seq<char>, bytes: u64) -> bool {
    exists|k: int| 0 <= k < paths.len() && (#[trigger] paths[k]).0@ == path && paths[k].1 == Some(bytes)
}

/// A removal takes the paths that exist and no others, each with its bytes and
/// by path; the total is their sum, and the paths that do not exist are named.
pub proof fn law_removal(paths: &[Measured], r: RemovalPlan, k: int)
    requires
        call_ensures(removal_plan, (paths,), r),
        0 <= k < paths@.len(),
    ensures
        r.total_bytes == freed_upto(paths@, paths@.len() as int),
        r.files@.len() + r.missing@.len() == paths@.len(),
        paths@[k].1 is Some ==> exists|i: int|
            0 <= i < r.files@.len() && (#[trigger] r.files@[i]).path@ == paths@[k].0@ && Some(
                r.files@[i].bytes,
            ) == paths@[k].1,
        paths@[k].1 is None ==> texts(r.missing@).contains(paths@[k].0@),
        forall|i: int|
            0 <= i < r.files@.len() ==> is_measured(
                paths@,
                (#[trigger] r.files@[i]).path@,
                r.files@[i].bytes,
            ),
        forall|i: int, j: int|
            0 <= i < j < r.files@.len() ==> !lex_below(
                (#[trigger] r.files@[j]).path@,
                (#[trigger] r.files@[i]).path@,
            ),
{
    let all = paths@;
    let at = existing_upto(all, all.len() as int);
    lemma_removal(all, all.len() as int);
    let v = r.files@;
    let p = choose|p: Seq<usize>|
        #[trigger] in_order(p, at.len(), name_below(all, at)) && v.len() == at.len() && forall|
            i: int,
        |
            0 <= i < v.len() ==> (#[trigger] v[i]).path@ == all[at[p[i] as int]].0@ && Some(
                v[i].bytes,
            ) == all[at[p[i] as int]].1;
    assert(texts(r.missing@).len() == r.missing@.len());
    if all[k].1 is Some {
        assert(at.contains(k));
        let x = choose|x: int| 0 <= x < at.len() && at[x] == k;
        let i = lemma_permutation_hits(p, at.len(), x);
        assert(v[i].path@ == all[at[p[i] as int]].0@);
    }
    assert forall|i: int| 0 <= i < v.len() implies is_measured(
        all,
        (#[trigger] v[i]).path@,
        v[i].bytes,
    ) by {
        assert(p[i] < at.len());
        assert(v[i].path@ == all[at[p[i] as int]].0@);
    }
    assert forall|i: int, j: int| 0 <= i < j < v.len() implies !lex_below(
        (#[trigger] v[j]).path@,
        (#[trigger] v[i]).path@,
    ) by {
        assert(p[i] < at.len() && p[j] < at.len());
        crate::text::lemma_lex(v[i].path@, v[j].path@, v[i].path@);
    }
}

} // verus!
