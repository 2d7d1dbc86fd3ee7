//! The release catalog.
use vstd::prelude::*;

use crate::text::same;

verus! {

/// A release that a source published. Source, repository and revision identify
/// it.
#[derive(Debug, Clone, PartialEq, Eq)]
pub struct Release {
    pub source: String,
    pub repo: String,
    pub rev: String,
    pub kind: String,
    pub title: String,
    pub url: String,
    pub published_at: String,
    /// What the source said, as a JSON document.
    pub payload_json: String,
    /// Unix time in seconds.
    pub fetched_at: i64,
}

/// Two records are of one release.
pub open spec fn same_release(a: Release, b: Release) -> bool {
    a.source@ == b.source@ && a.repo@ == b.repo@ && a.rev@ == b.rev@
}

/// The catalog has the release.
pub open spec fn is_known(catalog: Seq<Release>, r: Release) -> bool {
    exists|i: int| 0 <= i < catalog.len() && same_release(#[trigger] catalog[i], r)
}

/// Takes a release into the catalog; one that is there already is left as it
/// is. Says whether it is new.
pub fn insert_release(catalog: &mut Vec<Release>, r: Release) -> (new: bool)
    ensures
        new == !is_known(old(catalog)@, r),
        final(catalog)@ == if new {
            old(catalog)@.push(r)
        } else {
            old(catalog)@
        },
{
    let mut i: usize = 0;
    while i < catalog.len()
        invariant
            catalog@ == old(catalog)@,
            i <= catalog@.len(),
            forall|j: int| 0 <= j < i ==> !same_release(#[trigger] catalog@[j], r),
        decreases catalog@.len() - i,
    {
        let c = &catalog[i];
        if same(c.source.as_str(), r.source.as_str()) && same(c.repo.as_str(), r.repo.as_str())
            && same(c.rev.as_str(), r.rev.as_str()) {
            return false;
        }
        i = i + 1;
    }
    catalog.push(r);
    true
}

/// No release is in a catalog twice.
pub open spec fn is_catalog(v: Seq<Release>) -> bool {
    forall|i: int, j: int|
        0 <= i < j < v.len() ==> !same_release(#[trigger] v[i], #[trigger] v[j])
}

/// Taking a release in keeps a catalog a catalog, and knows the release
/// afterwards.
pub proof fn law_catalog_holds_each_once(before: Seq<Release>, r: Release, after: Seq<Release>)
    requires
        is_catalog(before),
        after == if is_known(before, r) {
            before
        } else {
            before.push(r)
        },
    ensures
        is_catalog(after),
        is_known(after, r),
{
    if !is_known(before, r) {
        assert(same_release(after[before.len() as int], r));
    }
}

} // verus!
