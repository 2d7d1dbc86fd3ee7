//! Filesystem scan: which entries are walked, which are models, and the list
//! that a scan gives.
use vstd::prelude::*;

use crate::model::{clone_meta, same_meta, ModelMeta};
use crate::order::Ranking;
use crate::order::{in_order, is_stable_order, lemma_in_order, stable_order, Alphabetical};
use crate::paths::{extension, file_name, path_extension, path_file_name, path_key, path_sort_key};
use crate::runtime::{path_in, path_join};
use crate::text::{
    contains, has_prefix, lex_below, owned, same, str_contains, str_has_prefix, texts,
};

verus! {

/// Directories that are never walked.
pub open spec fn skipped_dirs() -> Seq<Seq<char>> {
    seq![
        "node_modules"@,
        "target"@,
        ".git"@,
        "build-dir"@,
        "dist"@,
        "vendor"@,
        "Clone"@,
    ]
}

fn is_skipped(name: &str) -> (r: bool)
    ensures
        r == skipped_dirs().contains(name@),
{
    let r = same(name, "node_modules") || same(name, "target") || same(name, ".git") || same(
        name,
        "build-dir",
    ) || same(name, "dist") || same(name, "vendor") || same(name, "Clone");
    proof {
        let d = skipped_dirs();
        assert(d[0] == "node_modules"@ && d[1] == "target"@ && d[2] == ".git"@ && d[3]
            == "build-dir"@ && d[4] == "dist"@ && d[5] == "vendor"@ && d[6] == "Clone"@);
    }
    r
}

/// The roots of a scan: the home directory, the model store, and the hub cache.
pub fn default_roots(home: &str, models_dir: &str) -> (r: Vec<String>)
    ensures
        texts(r@) == seq![home@, models_dir@, path_in(home@, ".cache/huggingface/hub"@)],
{
    let mut r: Vec<String> = Vec::new();
    r.push(owned(home));
    r.push(owned(models_dir));
    r.push(path_join(home, ".cache/huggingface/hub"));
    assert(texts(r@) =~= seq![home@, models_dir@, path_in(home@, ".cache/huggingface/hub"@)]);
    r
}

/// An entry is walked or reported: it is not hidden (the cache aside), none of
/// the skipped directories, and not in the trash.
pub open spec fn is_kept(name: Seq<char>, path: Seq<char>) -> bool {
    &&& !has_prefix(name, "."@) || name == ".cache"@
    &&& !skipped_dirs().contains(name)
    &&& !contains(path, "/Trash/"@)
    &&& !contains(path, ".Trash"@)
}

/// Whether an entry is walked or reported.
pub fn keep(name: &str, path: &str) -> (r: bool)
    ensures
        r == is_kept(name@, path@),
{
    if str_has_prefix(name, ".") && !same(name, ".cache") {
        return false;
    }
    if is_skipped(name) {
        return false;
    }
    if str_contains(path, "/Trash/") || str_contains(path, ".Trash") {
        return false;
    }
    true
}

/// What an entry of the filesystem is.
#[derive(Debug, Clone, Copy, PartialEq, Eq, Structural)]
pub enum EntryKind {
    Dir,
    File,
    Other,
}

/// What a scan makes of an entry.
#[derive(Debug, Clone, Copy, PartialEq, Eq, Structural)]
pub enum Candidate {
    /// A model directory, to be read from its documents.
    ModelDir,
    /// A GGUF file, of which the header is to be read.
    GgufFile,
    /// No model.
    Nothing,
}

/// A file that counts as a model is larger: a MiB.
pub const MIN_GGUF_BYTES: u64 = 1_048_576;

/// What a scan makes of an entry: a directory that is a model directory, or a
/// GGUF file that is large enough and holds more than a vocabulary.
pub open spec fn candidate_of(
    path: Seq<char>,
    kind: EntryKind,
    bytes: u64,
    is_model_dir: bool,
) -> Candidate {
    match kind {
        EntryKind::Dir => if is_model_dir {
            Candidate::ModelDir
        } else {
            Candidate::Nothing
        },
        EntryKind::File => if extension(path) == Some("gguf"@) && !contains(
            match file_name(path) {
                Some(n) => n,
                None => ""@,
            },
            "ggml-vocab"@,
        ) && bytes > MIN_GGUF_BYTES {
            Candidate::GgufFile
        } else {
            Candidate::Nothing
        },
        EntryKind::Other => Candidate::Nothing,
    }
}

/// Classifies an entry of the filesystem.
pub fn classify(path: &str, kind: EntryKind, bytes: u64, is_model_dir: bool) -> (r: Candidate)
    ensures
        r == candidate_of(path@, kind, bytes, is_model_dir),
{
    match kind {
        EntryKind::Dir => {
            if is_model_dir {
                Candidate::ModelDir
            } else {
                Candidate::Nothing
            }
        },
        EntryKind::File => {
            let is_gguf = match path_extension(path) {
                Some(e) => same(e.as_str(), "gguf"),
                None => false,
            };
            if !is_gguf {
                return Candidate::Nothing;
            }
            let name = match path_file_name(path) {
                Some(n) => n,
                None => owned(""),
            };
            if str_contains(name.as_str(), "ggml-vocab") {
                return Candidate::Nothing;
            }
            if bytes > MIN_GGUF_BYTES {
                Candidate::GgufFile
            } else {
                Candidate::Nothing
            }
        },
        EntryKind::Other => Candidate::Nothing,
    }
}

/// Entry `i` is the first with its canonical path.
pub open spec fn is_first(canonical: Seq<Seq<char>>, i: int) -> bool {
    forall|j: int| 0 <= j < i ==> #[trigger] canonical[j] != canonical[i]
}

/// The positions of the first `n` entries that are the first with their
/// canonical path.
pub open spec fn firsts_upto(canonical: Seq<Seq<char>>, n: int) -> Seq<int>
    decreases n,
{
    if n <= 0 {
        Seq::empty()
    } else if is_first(canonical, n - 1) {
        firsts_upto(canonical, n - 1).push(n - 1)
    } else {
        firsts_upto(canonical, n - 1)
    }
}

/// Compares the models at a list of positions by path, step by step.
pub open spec fn walks_before(found: Seq<ModelMeta>, at: Seq<int>) -> spec_fn(int, int) -> bool {
    |i: int, j: int| lex_below(path_key(found[at[i]].path@), path_key(found[at[j]].path@))
}

/// `r` lists the models at a list of positions by path.
pub open spec fn lists_models(found: Seq<ModelMeta>, at: Seq<int>, r: Seq<ModelMeta>) -> bool {
    exists|p: Seq<usize>|
        #[trigger] in_order(p, at.len(), walks_before(found, at)) && r.len() == at.len()
            && forall|i: int|
            0 <= i < r.len() ==> same_meta(#[trigger] r[i], found[at[p[i] as int]])
}

fn first_at(canonical: &Vec<String>, i: usize) -> (r: bool)
    requires
        i < canonical@.len(),
    ensures
        r == is_first(texts(canonical@), i as int),
{
    let ghost all = texts(canonical@);
    let mut j: usize = 0;
    while j < i
        invariant
            all == texts(canonical@),
            i < canonical@.len(),
            j <= i,
            forall|k: int| 0 <= k < j ==> #[trigger] all[k] != all[i as int],
        decreases i - j,
    {
        assert(all[j as int] == canonical@[j as int]@);
        assert(all[i as int] == canonical@[i as int]@);
        if same(canonical[j].as_str(), canonical[i].as_str()) {
            return false;
        }
        j = j + 1;
    }
    true
}

/// The list that a scan gives: of the models with one canonical path the first
/// that was found, all by path. `canonical` holds the canonical path of each.
pub fn dedup_and_sort(found: &Vec<ModelMeta>, canonical: &Vec<String>) -> (r: Vec<ModelMeta>)
    requires
        canonical@.len() == found@.len(),
    ensures
        lists_models(found@, firsts_upto(texts(canonical@), found@.len() as int), r@),
{
    let n = found.len();
    let ghost all = texts(canonical@);
    let mut at: Vec<usize> = Vec::new();
    let mut keys: Vec<String> = Vec::new();
    let mut i: usize = 0;
    while i < n
        invariant
            n == found@.len(),
            n == canonical@.len(),
            all == texts(canonical@),
            i <= n,
            at@.len() == firsts_upto(all, i as int).len(),
            keys@.len() == at@.len(),
            forall|k: int|
                0 <= k < at@.len() ==> #[trigger] at@[k] == firsts_upto(all, i as int)[k] && at@[k]
                    < i && keys@[k]@ == path_key(found@[at@[k] as int].path@),
        decreases n - i,
    {
        if first_at(canonical, i) {
            at.push(i);
            keys.push(path_sort_key(found[i].path.as_str()));
        }
        i = i + 1;
    }
    let ranking = Alphabetical { keys };
    let p = stable_order(&ranking);
    let mut r: Vec<ModelMeta> = Vec::new();
    let mut k: usize = 0;
    while k < p.len()
        invariant
            is_stable_order(&ranking, p@),
            ranking.keys@.len() == at@.len(),
            forall|j: int| 0 <= j < at@.len() ==> #[trigger] at@[j] < found@.len(),
            k <= p@.len(),
            r@.len() == k,
            forall|j: int|
                0 <= j < k ==> same_meta(#[trigger] r@[j], found@[at@[p@[j] as int] as int]),
        decreases p@.len() - k,
    {
        assert(p@[k as int] < at@.len());
        r.push(clone_meta(&found[at[p[k]]]));
        k = k + 1;
    }
    proof {
        let pos = firsts_upto(all, n as int);
        let less = walks_before(found@, pos);
        assert forall|i: int, j: int|
            0 <= i < ranking.count() && 0 <= j < ranking.count() implies #[trigger] ranking.before(
            i,
            j,
        ) == less(i, j) by {
            assert(at@[i] == pos[i] && at@[j] == pos[j]);
        }
        lemma_in_order(&ranking, p@, less);
        assert(in_order(p@, pos.len(), less));
        assert forall|j: int| 0 <= j < r@.len() implies same_meta(
            #[trigger] r@[j],
            found@[pos[p@[j] as int]],
        ) by {
            assert(p@[j] < at@.len());
            assert(at@[p@[j] as int] == pos[p@[j] as int]);
        }
    }
    r
}

proof fn lemma_firsts(canonical: Seq<Seq<char>>, n: int, k: int)
    requires
        0 <= n <= canonical.len(),
        0 <= k < firsts_upto(canonical, n).len(),
    ensures
        0 <= firsts_upto(canonical, n)[k] < n,
        is_first(canonical, firsts_upto(canonical, n)[k]),
    decreases n,
{
    if n > 0 {
        let rest = firsts_upto(canonical, n - 1);
        if k < rest.len() {
            lemma_firsts(canonical, n - 1, k);
        }
    }
}

proof fn lemma_firsts_rise(canonical: Seq<Seq<char>>, n: int, j: int, k: int)
    requires
        0 <= n <= canonical.len(),
        0 <= j < k < firsts_upto(canonical, n).len(),
    ensures
        firsts_upto(canonical, n)[j] < firsts_upto(canonical, n)[k],
    decreases n,
{
    if n > 0 {
        let rest = firsts_upto(canonical, n - 1);
        if k < rest.len() {
            lemma_firsts_rise(canonical, n - 1, j, k);
        } else {
            lemma_firsts(canonical, n - 1, j);
        }
    }
}

/// However the roots overlap, no file is listed twice: the models of a list
/// come from different canonical paths, one from each that was found.
pub proof fn law_no_file_twice(canonical: Seq<Seq<char>>, j: int, k: int)
    requires
        0 <= j < k < firsts_upto(canonical, canonical.len() as int).len(),
    ensures
        canonical[firsts_upto(canonical, canonical.len() as int)[j]] != canonical[firsts_upto(
            canonical,
            canonical.len() as int,
        )[k]],
{
    let at = firsts_upto(canonical, canonical.len() as int);
    lemma_firsts(canonical, canonical.len() as int, j);
    lemma_firsts(canonical, canonical.len() as int, k);
    lemma_firsts_rise(canonical, canonical.len() as int, j, k);
    assert(canonical[at[j]] != canonical[at[k]]);
}

/// Every file that was found is listed once: some listed model has its
/// canonical path.
pub proof fn law_every_file_listed(canonical: Seq<Seq<char>>, i: int) -> (k: int)
    requires
        0 <= i < canonical.len(),
    ensures
        0 <= k < firsts_upto(canonical, canonical.len() as int).len(),
        canonical[firsts_upto(canonical, canonical.len() as int)[k]] == canonical[i],
    decreases i,
{
    if is_first(canonical, i) {
        lemma_first_listed(canonical, i, canonical.len() as int)
    } else {
        let j = choose|j: int| 0 <= j < i && #[trigger] canonical[j] == canonical[i];
        law_every_file_listed(canonical, j)
    }
}

proof fn lemma_first_listed(canonical: Seq<Seq<char>>, i: int, n: int) -> (k: int)
    requires
        0 <= i < n <= canonical.len(),
        is_first(canonical, i),
    ensures
        0 <= k < firsts_upto(canonical, n).len(),
        firsts_upto(canonical, n)[k] == i,
    decreases n,
{
    if i == n - 1 {
        firsts_upto(canonical, n - 1).len() as int
    } else {
        lemma_first_listed(canonical, i, n - 1)
    }
}

} // verus!
