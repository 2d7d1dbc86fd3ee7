//! Storage reconciliation: the filesystem is the source of truth.
//!
//! What the index claims is held against what a scan found. A claim without a
//! file is missing, a file without a claim is orphaned. A removal plan says
//! which files would go, and how many bytes that would free.
use vstd::prelude::*;

use crate::order::Ranking;
use crate::order::{in_order, is_stable_order, lemma_in_order, stable_order, Alphabetical};
use crate::text::{lex_below, owned, same, texts};

verus! {

/// A file that the index claims and the filesystem does not have.
#[derive(Debug, Clone, PartialEq, Eq)]
pub struct MissingArtifact {
    pub path: String,
    pub name: String,
    pub claimed_bytes: u64,
}

/// A file on disk that no row of the index owns.
#[derive(Debug, Clone, PartialEq, Eq)]
pub struct OrphanedArtifact {
    pub path: String,
    pub name: String,
    pub bytes: u64,
}

#[derive(Debug, Clone, PartialEq, Eq)]
pub struct Reconciliation {
    /// Rows whose file exists.
    pub ok_count: usize,
    pub ok_bytes: u64,
    pub missing: Vec<MissingArtifact>,
    pub orphaned: Vec<OrphanedArtifact>,
    /// Bytes of everything that was found.
    pub total_bytes: u64,
}

/// An artifact as listed: its path, its name and its bytes.
pub struct Listed {
    pub path: Seq<char>,
    pub name: Seq<char>,
    pub bytes: u64,
}

impl View for MissingArtifact {
    type V = Listed;

    open spec fn view(&self) -> Listed {
        Listed { path: self.path@, name: self.name@, bytes: self.claimed_bytes }
    }
}

impl View for OrphanedArtifact {
    type V = Listed;

    open spec fn view(&self) -> Listed {
        Listed { path: self.path@, name: self.name@, bytes: self.bytes }
    }
}

/// An entry of the index or of a scan: the path as it was given, its canonical
/// form (empty where there is none), the bytes and the name.
pub type Entry = (String, String, u64, String);

/// The entry's path can be spelled so.
pub open spec fn spelled(e: Entry, path: Seq<char>) -> bool {
    e.0@ == path || (e.1@.len() > 0 && e.1@ == path)
}

/// Two entries are of one file: they share a spelling.
pub open spec fn same_file(a: Entry, b: Entry) -> bool {
    spelled(b, a.0@) || (a.1@.len() > 0 && spelled(b, a.1@))
}

/// The list has an entry of the same file.
pub open spec fn has_match(e: Entry, others: Seq<Entry>) -> bool {
    exists|j: int| 0 <= j < others.len() && same_file(e, #[trigger] others[j])
}

/// The positions of the first `n` entries that the other list lacks.
pub open spec fn lacking_upto(list: Seq<Entry>, others: Seq<Entry>, n: int) -> Seq<int>
    decreases n,
{
    if n <= 0 {
        Seq::empty()
    } else if has_match(list[n - 1], others) {
        lacking_upto(list, others, n - 1)
    } else {
        lacking_upto(list, others, n - 1).push(n - 1)
    }
}

/// The positions of the entries that the other list lacks.
pub open spec fn lacking(list: Seq<Entry>, others: Seq<Entry>) -> Seq<int> {
    lacking_upto(list, others, list.len() as int)
}

/// How many of the first `n` entries the other list has.
pub open spec fn matched_count(list: Seq<Entry>, others: Seq<Entry>, n: int) -> nat
    decreases n,
{
    if n <= 0 {
        0
    } else {
        matched_count(list, others, n - 1) + if has_match(list[n - 1], others) {
            1nat
        } else {
            0nat
        }
    }
}

/// The bytes of the first `n` entries that the other list has.
pub open spec fn matched_bytes(list: Seq<Entry>, others: Seq<Entry>, n: int) -> nat
    decreases n,
{
    if n <= 0 {
        0
    } else {
        matched_bytes(list, others, n - 1) + if has_match(list[n - 1], others) {
            list[n - 1].2 as nat
        } else {
            0nat
        }
    }
}

/// The bytes of the first `n` entries.
pub open spec fn bytes_upto(list: Seq<Entry>, n: int) -> nat
    decreases n,
{
    if n <= 0 {
        0
    } else {
        bytes_upto(list, n - 1) + list[n - 1].2 as nat
    }
}

/// The bytes of all entries.
pub open spec fn all_bytes(list: Seq<Entry>) -> nat {
    bytes_upto(list, list.len() as int)
}

/// An entry as listed.
pub open spec fn listed(e: Entry) -> Listed {
    Listed { path: e.0@, name: e.3@, bytes: e.2 }
}

/// Compares the entries at a list of positions by path.
pub open spec fn path_below(list: Seq<Entry>, at: Seq<int>) -> spec_fn(int, int) -> bool {
    |i: int, j: int| lex_below(list[at[i]].0@, list[at[j]].0@)
}

/// `v` lists the entries at a list of positions, in the order of their paths.
pub open spec fn lists_by_path(list: Seq<Entry>, at: Seq<int>, v: Seq<Listed>) -> bool {
    exists|p: Seq<usize>|
        #[trigger] in_order(p, at.len(), path_below(list, at)) && v.len() == at.len() && forall|
            i: int,
        |
            0 <= i < v.len() ==> #[trigger] v[i] == listed(list[at[p[i] as int]])
}

pub open spec fn missing_views(v: Seq<MissingArtifact>) -> Seq<Listed> {
    Seq::new(v.len(), |i: int| v[i]@)
}

pub open spec fn orphaned_views(v: Seq<OrphanedArtifact>) -> Seq<Listed> {
    Seq::new(v.len(), |i: int| v[i]@)
}

/// The reconciliation of what is registered with what was found.
pub open spec fn is_reconciliation(
    registered: Seq<Entry>,
    found: Seq<Entry>,
    r: Reconciliation,
) -> bool {
    &&& r.ok_count == matched_count(registered, found, registered.len() as int)
    &&& r.ok_bytes == matched_bytes(registered, found, registered.len() as int)
    &&& lists_by_path(registered, lacking(registered, found), missing_views(r.missing@))
    &&& lists_by_path(found, lacking(found, registered), orphaned_views(r.orphaned@))
    &&& r.total_bytes == all_bytes(found)
}

fn entry_spelled(e: &Entry, path: &str) -> (r: bool)
    ensures
        r == spelled(*e, path@),
{
    same(e.0.as_str(), path) || (!e.1.as_str().is_empty() && same(e.1.as_str(), path))
}

fn found_in(e: &Entry, others: &[Entry]) -> (r: bool)
    ensures
        r == has_match(*e, others@),
{
    let n = others.len();
    let mut j: usize = 0;
    while j < n
        invariant
            n == others@.len(),
            j <= n,
            forall|k: int| 0 <= k < j ==> !same_file(*e, #[trigger] others@[k]),
        decreases n - j,
    {
        if entry_spelled(&others[j], e.0.as_str()) || (!e.1.as_str().is_empty() && entry_spelled(
            &others[j],
            e.1.as_str(),
        )) {
            return true;
        }
        j = j + 1;
    }
    false
}

proof fn lemma_bytes(list: Seq<Entry>, others: Seq<Entry>, n: int)
    requires
        0 <= n <= list.len(),
    ensures
        matched_bytes(list, others, n) <= bytes_upto(list, n) <= all_bytes(list),
        matched_count(list, others, n) + lacking_upto(list, others, n).len() == n,
        forall|k: int|
            0 <= k < lacking_upto(list, others, n).len() ==> 0 <= #[trigger] lacking_upto(
                list,
                others,
                n,
            )[k] < n && !has_match(list[lacking_upto(list, others, n)[k]], others),
    decreases n,
{
    if n > 0 {
        lemma_bytes(list, others, n - 1);
    }
    lemma_bytes_grow(list, n);
}

proof fn lemma_bytes_grow(list: Seq<Entry>, n: int)
    requires
        0 <= n <= list.len(),
    ensures
        bytes_upto(list, n) <= all_bytes(list),
    decreases list.len() - n,
{
    if n < list.len() {
        lemma_bytes_grow(list, n + 1);
    }
}

/// The positions of the entries that the other list lacks.
fn positions_lacking(list: &[Entry], others: &[Entry]) -> (at: Vec<usize>)
    ensures
        Seq::new(at@.len(), |k: int| at@[k] as int) == lacking(list@, others@),
        forall|k: int| 0 <= k < at@.len() ==> #[trigger] at@[k] < list@.len(),
{
    let mut at: Vec<usize> = Vec::new();
    let n = list.len();
    let mut i: usize = 0;
    while i < n
        invariant
            n == list@.len(),
            i <= n,
            at@.len() == lacking_upto(list@, others@, i as int).len(),
            forall|k: int|
                0 <= k < at@.len() ==> #[trigger] at@[k] == lacking_upto(
                    list@,
                    others@,
                    i as int,
                )[k] && at@[k] < i,
        decreases n - i,
    {
        if !found_in(&list[i], others) {
            at.push(i);
        }
        i = i + 1;
    }
    assert(Seq::new(at@.len(), |k: int| at@[k] as int) =~= lacking(list@, others@));
    at
}

/// The order of the entries at a list of positions by path.
fn path_order(list: &[Entry], at: &Vec<usize>) -> (p: Vec<usize>)
    requires
        forall|k: int| 0 <= k < at@.len() ==> #[trigger] at@[k] < list@.len(),
    ensures
        in_order(
            p@,
            at@.len(),
            path_below(list@, Seq::new(at@.len(), |k: int| at@[k] as int)),
        ),
{
    let mut keys: Vec<String> = Vec::new();
    let mut i: usize = 0;
    while i < at.len()
        invariant
            forall|k: int| 0 <= k < at@.len() ==> #[trigger] at@[k] < list@.len(),
            i <= at@.len(),
            keys@.len() == i,
            forall|k: int| 0 <= k < i ==> (#[trigger] keys@[k])@ == list@[at@[k] as int].0@,
        decreases at@.len() - i,
    {
        keys.push(owned(list[at[i]].0.as_str()));
        i = i + 1;
    }
    let ranking = Alphabetical { keys };
    let p = stable_order(&ranking);
    proof {
        lemma_in_order(
            &ranking,
            p@,
            path_below(list@, Seq::new(at@.len(), |k: int| at@[k] as int)),
        );
    }
    p
}

/// Holds what is registered against what was found.
pub fn reconcile_registered_vs_found(registered: &[Entry], found: &[Entry]) -> (r: Reconciliation)
    requires
        all_bytes(registered@) <= u64::MAX,
        all_bytes(found@) <= u64::MAX,
    ensures
        is_reconciliation(registered@, found@, r),
{
    let mut total_bytes: u64 = 0;
    let n = found.len();
    let mut i: usize = 0;
    while i < n
        invariant
            n == found@.len(),
            i <= n,
            all_bytes(found@) <= u64::MAX,
            total_bytes == bytes_upto(found@, i as int),
        decreases n - i,
    {
        proof {
            lemma_bytes_grow(found@, i + 1);
        }
        total_bytes = total_bytes + found[i].2;
        i = i + 1;
    }
    let mut ok_count: usize = 0;
    let mut ok_bytes: u64 = 0;
    let m = registered.len();
    let mut i: usize = 0;
    while i < m
        invariant
            m == registered@.len(),
            i <= m,
            all_bytes(registered@) <= u64::MAX,
            ok_count == matched_count(registered@, found@, i as int),
            ok_count <= i,
            ok_bytes == matched_bytes(registered@, found@, i as int),
        decreases m - i,
    {
        proof {
            lemma_bytes(registered@, found@, i + 1);
        }
        if found_in(&registered[i], found) {
            ok_count = ok_count + 1;
            ok_bytes = ok_bytes + registered[i].2;
        }
        i = i + 1;
    }
    let gone = positions_lacking(registered, found);
    let ghost gone_at = Seq::new(gone@.len(), |k: int| gone@[k] as int);
    let gone_order = path_order(registered, &gone);
    assert(in_order(gone_order@, gone_at.len(), path_below(registered@, gone_at)));
    let mut missing: Vec<MissingArtifact> = Vec::new();
    let mut k: usize = 0;
    while k < gone_order.len()
        invariant
            forall|j: int| 0 <= j < gone@.len() ==> #[trigger] gone@[j] < registered@.len(),
            in_order(gone_order@, gone@.len(), path_below(registered@, gone_at)),
            k <= gone_order@.len(),
            missing@.len() == k,
            forall|j: int|
                0 <= j < k ==> (#[trigger] missing@[j])@ == listed(
                    registered@[gone@[gone_order@[j] as int] as int],
                ),
        decreases gone_order@.len() - k,
    {
        assert(gone_order@[k as int] < gone@.len());
        let e = &registered[gone[gone_order[k]]];
        missing.push(
            MissingArtifact {
                path: owned(e.0.as_str()),
                name: owned(e.3.as_str()),
                claimed_bytes: e.2,
            },
        );
        k = k + 1;
    }
    proof {
        let at = gone_at;
        assert forall|i: int| 0 <= i < missing_views(missing@).len() implies #[trigger] missing_views(
            missing@,
        )[i] == listed(registered@[at[gone_order@[i] as int]]) by {
            assert(gone_order@[i] < gone@.len());
            assert(missing@[i]@ == listed(registered@[gone@[gone_order@[i] as int] as int]));
        }
        assert(lists_by_path(registered@, at, missing_views(missing@)));
    }
    let stray = positions_lacking(found, registered);
    let ghost stray_at = Seq::new(stray@.len(), |k: int| stray@[k] as int);
    let stray_order = path_order(found, &stray);
    assert(in_order(stray_order@, stray_at.len(), path_below(found@, stray_at)));
    let mut orphaned: Vec<OrphanedArtifact> = Vec::new();
    let mut k: usize = 0;
    while k < stray_order.len()
        invariant
            forall|j: int| 0 <= j < stray@.len() ==> #[trigger] stray@[j] < found@.len(),
            in_order(stray_order@, stray@.len(), path_below(found@, stray_at)),
            k <= stray_order@.len(),
            orphaned@.len() == k,
            forall|j: int|
                0 <= j < k ==> (#[trigger] orphaned@[j])@ == listed(
                    found@[stray@[stray_order@[j] as int] as int],
                ),
        decreases stray_order@.len() - k,
    {
        assert(stray_order@[k as int] < stray@.len());
        let e = &found[stray[stray_order[k]]];
        orphaned.push(
            OrphanedArtifact {
                path: owned(e.0.as_str()),
                name: owned(e.3.as_str()),
                bytes: e.2,
            },
        );
        k = k + 1;
    }
    proof {
        let at = stray_at;
        assert forall|i: int| 0 <= i < orphaned_views(orphaned@).len() implies #[trigger] orphaned_views(
            orphaned@,
        )[i] == listed(found@[at[stray_order@[i] as int]]) by {
            assert(stray_order@[i] < stray@.len());
            assert(orphaned@[i]@ == listed(found@[stray@[stray_order@[i] as int] as int]));
        }
        assert(lists_by_path(found@, at, orphaned_views(orphaned@)));
    }
    Reconciliation { ok_count, ok_bytes, missing, orphaned, total_bytes }
}

/// Every registered row is either healthy or missing.
pub proof fn law_rows_are_ok_or_missing(
    registered: Seq<Entry>,
    found: Seq<Entry>,
    r: Reconciliation,
)
    requires
        is_reconciliation(registered, found, r),
    ensures
        r.ok_count + r.missing@.len() == registered.len(),
        r.ok_bytes <= all_bytes(registered),
{
    lemma_bytes(registered, found, registered.len() as int);
}

/// A row is never called healthy when its file is gone, nor missing when its
/// file was found: what is listed as missing is a row without a found file.
pub proof fn law_missing_has_no_file(
    registered: Seq<Entry>,
    found: Seq<Entry>,
    r: Reconciliation,
    i: int,
) -> (k: int)
    requires
        is_reconciliation(registered, found, r),
        0 <= i < r.missing@.len(),
    ensures
        0 <= k < registered.len(),
        r.missing@[i]@ == listed(registered[k]),
        !has_match(registered[k], found),
{
    let at = lacking(registered, found);
    let v = missing_views(r.missing@);
    let p = choose|p: Seq<usize>|
        #[trigger] in_order(p, at.len(), path_below(registered, at)) && v.len() == at.len()
            && forall|i: int|
            0 <= i < v.len() ==> #[trigger] v[i] == listed(registered[at[p[i] as int]]);
    lemma_bytes(registered, found, registered.len() as int);
    assert(v[i] == listed(registered[at[p[i] as int]]));
    assert(p[i] < at.len());
    at[p[i] as int]
}

/// Every row without a file is listed as missing.
pub proof fn law_row_without_file_is_missing(
    registered: Seq<Entry>,
    found: Seq<Entry>,
    r: Reconciliation,
    k: int,
) -> (i: int)
    requires
        is_reconciliation(registered, found, r),
        0 <= k < registered.len(),
        !has_match(registered[k], found),
    ensures
        0 <= i < r.missing@.len(),
        r.missing@[i]@ == listed(registered[k]),
{
    let at = lacking(registered, found);
    let v = missing_views(r.missing@);
    let p = choose|p: Seq<usize>|
        #[trigger] in_order(p, at.len(), path_below(registered, at)) && v.len() == at.len()
            && forall|i: int|
            0 <= i < v.len() ==> #[trigger] v[i] == listed(registered[at[p[i] as int]]);
    let x = lemma_lacking_has(registered, found, k, registered.len() as int);
    let i = crate::order::lemma_permutation_hits(p, at.len(), x);
    assert(v[i] == listed(registered[at[p[i] as int]]));
    i
}

proof fn lemma_lacking_has(list: Seq<Entry>, others: Seq<Entry>, k: int, n: int) -> (x: int)
    requires
        0 <= k < n <= list.len(),
        !has_match(list[k], others),
    ensures
        0 <= x < lacking_upto(list, others, n).len(),
        lacking_upto(list, others, n)[x] == k,
    decreases n,
{
    if k == n - 1 {
        lacking_upto(list, others, n - 1).len() as int
    } else {
        let x = lemma_lacking_has(list, others, k, n - 1);
        x
    }
}

/// An index that lists just what was found has nothing missing and nothing
/// orphaned.
pub proof fn law_index_of_findings_is_healthy(found: Seq<Entry>, r: Reconciliation)
    requires
        is_reconciliation(found, found, r),
    ensures
        r.missing@.len() == 0,
        r.orphaned@.len() == 0,
        r.ok_count == found.len(),
{
    lemma_bytes(found, found, found.len() as int);
    let at = lacking(found, found);
    if at.len() > 0 {
        let k = at[0];
        assert(!has_match(found[k], found));
        assert(same_file(found[k], found[k]));
    }
}

/// Which files a removal takes, how many bytes each has, and which of the paths
/// have no file.
#[derive(Debug, Clone, PartialEq, Eq)]
pub struct RemovalPlan {
    pub files: Vec<RemovalEntry>,
    pub total_bytes: u64,
    pub missing: Vec<String>,
}

#[derive(Debug, Clone, PartialEq, Eq)]
pub struct RemovalEntry {
    pub path: String,
    pub bytes: u64,
}

/// A path, with the bytes below it where it exists.
pub type Measured = (String, Option<u64>);

/// The positions of the first `n` paths that exist.
pub open spec fn existing_upto(paths: Seq<Measured>, n: int) -> Seq<int>
    decreases n,
{
    if n <= 0 {
        Seq::empty()
    } else if paths[n - 1].1 is Some {
        existing_upto(paths, n - 1).push(n - 1)
    } else {
        existing_upto(paths, n - 1)
    }
}

/// The first `n` paths that do not exist.
pub open spec fn absent_upto(paths: Seq<Measured>, n: int) -> Seq<Seq<char>>
    decreases n,
{
    if n <= 0 {
        Seq::empty()
    } else if paths[n - 1].1 is Some {
        absent_upto(paths, n - 1)
    } else {
        absent_upto(paths, n - 1).push(paths[n - 1].0@)
    }
}

/// The bytes below the first `n` paths.
pub open spec fn measured_upto(paths: Seq<Measured>, n: int) -> nat
    decreases n,
{
    if n <= 0 {
        0
    } else {
        measured_upto(paths, n - 1) + match paths[n - 1].1 {
            Some(b) => b as nat,
            None => 0nat,
        }
    }
}

/// Compares the paths at a list of positions.
pub open spec fn name_below(paths: Seq<Measured>, at: Seq<int>) -> spec_fn(int, int) -> bool {
    |i: int, j: int| lex_below(paths[at[i]].0@, paths[at[j]].0@)
}

/// The entries are those of the paths at a list of positions, in order.
pub open spec fn are_removed(paths: Seq<Measured>, at: Seq<int>, v: Seq<RemovalEntry>) -> bool {
    exists|p: Seq<usize>|
        #[trigger] in_order(p, at.len(), name_below(paths, at)) && v.len() == at.len() && forall|
            i: int,
        |
            0 <= i < v.len() ==> (#[trigger] v[i]).path@ == paths[at[p[i] as int]].0@ && Some(
                v[i].bytes,
            ) == paths[at[p[i] as int]].1
}

proof fn lemma_measured_grow(paths: Seq<Measured>, n: int)
    requires
        0 <= n <= paths.len(),
    ensures
        measured_upto(paths, n) <= measured_upto(paths, paths.len() as int),
    decreases paths.len() - n,
{
    if n < paths.len() {
        lemma_measured_grow(paths, n + 1);
    }
}

/// Plans the removal of paths, of which the caller has looked up the sizes.
/// Nothing that does not exist is removed.
pub fn removal_plan(paths: &[Measured]) -> (r: RemovalPlan)
    requires
        measured_upto(paths@, paths@.len() as int) <= u64::MAX,
    ensures
        are_removed(paths@, existing_upto(paths@, paths@.len() as int), r.files@),
        r.total_bytes == measured_upto(paths@, paths@.len() as int),
        texts(r.missing@) == absent_upto(paths@, paths@.len() as int),
{
    let n = paths.len();
    let mut at: Vec<usize> = Vec::new();
    let mut keys: Vec<String> = Vec::new();
    let mut sizes: Vec<u64> = Vec::new();
    let mut missing: Vec<String> = Vec::new();
    let mut total_bytes: u64 = 0;
    let mut i: usize = 0;
    assert(texts(missing@) =~= absent_upto(paths@, 0));
    while i < n
        invariant
            n == paths@.len(),
            i <= n,
            measured_upto(paths@, paths@.len() as int) <= u64::MAX,
            total_bytes == measured_upto(paths@, i as int),
            texts(missing@) == absent_upto(paths@, i as int),
            at@.len() == existing_upto(paths@, i as int).len(),
            keys@.len() == at@.len(),
            sizes@.len() == at@.len(),
            forall|k: int|
                0 <= k < at@.len() ==> #[trigger] at@[k] == existing_upto(paths@, i as int)[k]
                    && at@[k] < i && keys@[k]@ == paths@[at@[k] as int].0@ && Some(sizes@[k])
                    == paths@[at@[k] as int].1,
        decreases n - i,
    {
        proof {
            lemma_measured_grow(paths@, i + 1);
        }
        let ghost before = texts(missing@);
        match paths[i].1 {
            Some(b) => {
                total_bytes = total_bytes + b;
                at.push(i);
                keys.push(owned(paths[i].0.as_str()));
                sizes.push(b);
            },
            None => {
                missing.push(owned(paths[i].0.as_str()));
                assert(texts(missing@) =~= before.push(paths@[i as int].0@));
            },
        }
        i = i + 1;
    }
    let ranking = Alphabetical { keys };
    let p = stable_order(&ranking);
    let mut files: Vec<RemovalEntry> = Vec::new();
    let mut k: usize = 0;
    while k < p.len()
        invariant
            is_stable_order(&ranking, p@),
            ranking.keys@.len() == at@.len(),
            sizes@.len() == at@.len(),
            k <= p@.len(),
            files@.len() == k,
            forall|j: int|
                0 <= j < k ==> (#[trigger] files@[j]).path@ == ranking.keys@[p@[j] as int]@
                    && files@[j].bytes == sizes@[p@[j] as int],
        decreases p@.len() - k,
    {
        assert(p@[k as int] < ranking.keys@.len());
        files.push(
            RemovalEntry { path: owned(ranking.keys[p[k]].as_str()), bytes: sizes[p[k]] },
        );
        k = k + 1;
    }
    proof {
        let pos = existing_upto(paths@, n as int);
        assert forall|i: int, j: int|
            0 <= i < ranking.count() && 0 <= j < ranking.count() implies #[trigger] ranking.before(
            i,
            j,
        ) == name_below(paths@, pos)(i, j) by {
            assert(at@[i] == pos[i] && at@[j] == pos[j]);
        }
        lemma_in_order(&ranking, p@, name_below(paths@, pos));
        assert forall|i: int| 0 <= i < files@.len() implies (#[trigger] files@[i]).path@
            == paths@[pos[p@[i] as int]].0@ && Some(files@[i].bytes) == paths@[pos[p@[i] as int]].1 by {
            assert(p@[i] < at@.len());
            assert(at@[p@[i] as int] == pos[p@[i] as int]);
        }
        assert(in_order(p@, pos.len(), name_below(paths@, pos)));
    }
    RemovalPlan { files, total_bytes, missing }
}

} // verus!
