//! Model library: identities, artifacts, configurations and their origins.
use vstd::prelude::*;
use vstd::string::StringExecFns;

use crate::dedup::{
    copies_countable, footprint_at, members_of, members_upto, positions_of, sum_at,
    total_footprint,
};
use crate::engines::workflow::text_bytes;
use crate::model::{identity_of, ModelMeta};
use crate::order::{
    in_order, is_stable_order, lemma_in_order, lemma_permutation_hits, stable_order, stands_before,
    Alphabetical,
};
use crate::params::Params;
use crate::profile::{same_profile, Profile};
use crate::text::{
    clone_opt, decimal, decimal_of, has_prefix, has_suffix, has_text, lemma_lex_total, lex_below,
    opt_text, owned, same, slice_string, str_has_prefix, str_has_suffix, texts, to_chars,
};

verus! {

/// Lifecycle of one artifact on this machine.
#[derive(Debug, Clone, Copy, PartialEq, Eq, Structural)]
pub enum Lifecycle {
    /// Known, but without a local file.
    Discovered,
    /// A local file exists, nothing runs it.
    Installed,
    /// A live runtime executes it.
    Running,
}

/// The lifecycle that follows from the file and the live runs.
pub open spec fn lifecycle_of(exists_on_disk: bool, is_running: bool) -> Lifecycle {
    if is_running {
        Lifecycle::Running
    } else if exists_on_disk {
        Lifecycle::Installed
    } else {
        Lifecycle::Discovered
    }
}

/// Derives the lifecycle of an artifact. A live run wins.
pub fn classify(exists_on_disk: bool, is_running: bool) -> (r: Lifecycle)
    ensures
        r == lifecycle_of(exists_on_disk, is_running),
{
    match (exists_on_disk, is_running) {
        (_, true) => Lifecycle::Running,
        (true, false) => Lifecycle::Installed,
        (false, false) => Lifecycle::Discovered,
    }
}

/// Why a configuration was chosen.
pub open spec fn fit_explanation(
    runtime_id: Seq<char>,
    ctx: u64,
    kv_label: Seq<char>,
    model_vram_mb: u64,
    available_mb: u64,
    offload: bool,
) -> Seq<char> {
    let head = runtime_id + ": ctx "@ + decimal(ctx as nat) + " with "@ + kv_label;
    if offload {
        head + " KV; weights spill to RAM, VRAM holds KV+buffers (~"@ + decimal(
            model_vram_mb as nat,
        ) + " MiB of "@ + decimal(available_mb as nat) + " MiB)."@
    } else {
        head + " KV; estimated VRAM ~"@ + decimal(model_vram_mb as nat) + " MiB of "@ + decimal(
            available_mb as nat,
        ) + " MiB."@
    }
}

/// Explains a configuration.
pub fn explain_fit(
    runtime_id: &str,
    ctx: u64,
    kv_label: &str,
    model_vram_mb: u64,
    available_mb: u64,
    offload: bool,
) -> (r: String)
    ensures
        r@ == fit_explanation(runtime_id@, ctx, kv_label@, model_vram_mb, available_mb, offload),
{
    let mut r = owned(runtime_id);
    r.append(": ctx ");
    r.append(decimal_of(ctx).as_str());
    r.append(" with ");
    r.append(kv_label);
    if offload {
        r.append(" KV; weights spill to RAM, VRAM holds KV+buffers (~");
        r.append(decimal_of(model_vram_mb).as_str());
        r.append(" MiB of ");
        r.append(decimal_of(available_mb).as_str());
        r.append(" MiB).");
    } else {
        r.append(" KV; estimated VRAM ~");
        r.append(decimal_of(model_vram_mb).as_str());
        r.append(" MiB of ");
        r.append(decimal_of(available_mb).as_str());
        r.append(" MiB.");
    }
    r
}

/// One local artifact of a model.
#[derive(Debug, Clone, PartialEq)]
pub struct ArtifactView {
    pub path: String,
    pub name: String,
    pub quant: Option<String>,
    pub bytes: u64,
    pub lifecycle: Lifecycle,
}

/// The artifacts that are one model, at different quants.
#[derive(Debug, Clone, PartialEq)]
pub struct IdentityGroup {
    pub identity: String,
    pub arch: Option<String>,
    pub display_name: String,
    /// By path.
    pub artifacts: Vec<ArtifactView>,
    pub total_bytes: u64,
}

/// What the filesystem says of an artifact: its canonical path (the path as
/// given where there is none), and whether it is there.
#[derive(Debug, Clone, PartialEq, Eq)]
pub struct DiskFact {
    pub canonical: String,
    pub exists: bool,
}

/// A name without the extension, however often it stands at the end.
pub open spec fn without_gguf(name: Seq<char>) -> Seq<char>
    decreases name.len(),
{
    if name.len() >= 5 && has_suffix(name, ".gguf"@) {
        without_gguf(name.take(name.len() - 5))
    } else {
        name
    }
}

pub open spec fn is_separator(c: char) -> bool {
    c == '-' || c == '_' || c == ' '
}

/// What stands before the last separator of a text.
pub open spec fn before_separator(s: Seq<char>) -> Option<Seq<char>>
    decreases s.len(),
{
    if s.len() == 0 {
        None
    } else if is_separator(s.last()) {
        Some(s.drop_last())
    } else {
        before_separator(s.drop_last())
    }
}

/// The name begins with the stem, its extension aside.
pub open spec fn begins_stem(name: Seq<char>, stem: Seq<char>) -> bool {
    has_prefix(without_gguf(name), stem)
}

/// The name that a group of artifacts goes by: the beginning that they share,
/// if it is four bytes or more, else the name of the first.
pub open spec fn display_name_spec(names: Seq<Seq<char>>) -> Seq<char> {
    if names.len() == 0 {
        "unknown model"@
    } else {
        match before_separator(without_gguf(names[0])) {
            Some(stem) => if text_bytes(stem) >= 4 && forall|i: int|
                0 <= i < names.len() ==> begins_stem(#[trigger] names[i], stem) {
                stem
            } else {
                names[0]
            },
            None => names[0],
        }
    }
}

fn strip_gguf(name: &str) -> (r: String)
    ensures
        r@ == without_gguf(name@),
{
    let mut cur = owned(name);
    proof {
        reveal_strlit(".gguf");
    }
    while str_has_suffix(cur.as_str(), ".gguf")
        invariant
            ".gguf"@.len() == 5,
            without_gguf(name@) == without_gguf(cur@),
        decreases cur@.len(),
    {
        let v = to_chars(cur.as_str());
        let n = v.len();
        assert(n >= 5);
        let rest = slice_string(&v, 0, n - 5);
        assert(rest@ =~= cur@.take(cur@.len() - 5));
        cur = rest;
    }
    cur
}

fn stem_before(s: &str) -> (r: Option<String>)
    ensures
        opt_text(r) == before_separator(s@),
{
    let v = to_chars(s);
    let mut n: usize = v.len();
    assert(v@.take(n as int) =~= s@);
    while n > 0
        invariant
            n <= v@.len(),
            before_separator(s@) == before_separator(v@.take(n as int)),
        decreases n,
    {
        let c = v[n - 1];
        assert(v@.take(n as int).last() == c);
        assert(v@.take(n as int).drop_last() =~= v@.take(n - 1));
        if c == '-' || c == '_' || c == ' ' {
            let stem = slice_string(&v, 0, n - 1);
            assert(stem@ =~= v@.take(n - 1));
            return Some(stem);
        }
        n = n - 1;
    }
    None
}

/// The name that a group of artifacts goes by.
pub fn display_name_for(names: &Vec<String>) -> (r: String)
    ensures
        r@ == display_name_spec(texts(names@)),
{
    if names.len() == 0 {
        return owned("unknown model");
    }
    let ghost all = texts(names@);
    assert(all[0] == names@[0]@);
    let first = strip_gguf(names[0].as_str());
    match stem_before(first.as_str()) {
        Some(stem) => {
            if stem.as_str().len() < 4 {
                return owned(names[0].as_str());
            }
            let mut i: usize = 0;
            while i < names.len()
                invariant
                    all == texts(names@),
                    names@.len() > 0,
                    all[0] == names@[0]@,
                    before_separator(without_gguf(all[0])) == Some(stem@),
                    i <= names@.len(),
                    forall|j: int| 0 <= j < i ==> begins_stem(#[trigger] all[j], stem@),
                decreases names@.len() - i,
            {
                assert(all[i as int] == names@[i as int]@);
                let bare = strip_gguf(names[i].as_str());
                if !str_has_prefix(bare.as_str(), stem.as_str()) {
                    assert(!begins_stem(all[i as int], stem@));
                    return owned(names[0].as_str());
                }
                i = i + 1;
            }
            stem
        },
        None => owned(names[0].as_str()),
    }
}

/// The first architecture that is known among the models at a list of
/// positions.
pub open spec fn first_arch(models: Seq<ModelMeta>, at: Seq<int>, i: int) -> Option<Seq<char>>
    decreases at.len() - i,
{
    if i < 0 || i >= at.len() {
        None
    } else {
        match opt_text(models[at[i]].arch) {
            Some(a) => Some(a),
            None => first_arch(models, at, i + 1),
        }
    }
}

/// The names of the models at a list of positions.
pub open spec fn names_at(models: Seq<ModelMeta>, at: Seq<int>) -> Seq<Seq<char>> {
    Seq::new(at.len(), |i: int| models[at[i]].name@)
}

/// A live slot runs the artifact, under the path as given or its canonical one.
pub open spec fn is_live(m: ModelMeta, d: DiskFact, running: Seq<Seq<char>>) -> bool {
    running.contains(m.path@) || running.contains(d.canonical@)
}

/// The artifact is that of a model.
pub open spec fn is_artifact(
    a: ArtifactView,
    m: ModelMeta,
    d: DiskFact,
    running: Seq<Seq<char>>,
) -> bool {
    &&& a.path@ == m.path@
    &&& a.name@ == m.name@
    &&& opt_text(a.quant) == opt_text(m.quant)
    &&& a.bytes == m.footprint
    &&& a.lifecycle == lifecycle_of(d.exists, is_live(m, d, running))
}

/// Compares the models at a list of positions by path.
pub open spec fn model_path_below(models: Seq<ModelMeta>, at: Seq<int>) -> spec_fn(
    int,
    int,
) -> bool {
    |i: int, j: int| lex_below(models[at[i]].path@, models[at[j]].path@)
}

/// `v` holds the artifacts of the models at a list of positions, by path.
pub open spec fn are_artifacts(
    models: Seq<ModelMeta>,
    disk: Seq<DiskFact>,
    running: Seq<Seq<char>>,
    at: Seq<int>,
    v: Seq<ArtifactView>,
) -> bool {
    exists|p: Seq<usize>|
        #[trigger] in_order(p, at.len(), model_path_below(models, at)) && v.len() == at.len()
            && forall|i: int|
            0 <= i < v.len() ==> is_artifact(
                #[trigger] v[i],
                models[at[p[i] as int]],
                disk[at[p[i] as int]],
                running,
            )
}

/// The group is that of the models with its identity.
pub open spec fn is_identity_group(
    models: Seq<ModelMeta>,
    disk: Seq<DiskFact>,
    running: Seq<Seq<char>>,
    g: IdentityGroup,
) -> bool {
    let at = members_of(models, g.identity@);
    &&& at.len() > 0
    &&& opt_text(g.arch) == first_arch(models, at, 0)
    &&& g.display_name@ == display_name_spec(names_at(models, at))
    &&& are_artifacts(models, disk, running, at, g.artifacts@)
    &&& g.total_bytes == footprint_at(models, at)
}

/// One of the groups has an identity.
pub open spec fn lists_identity(groups: Seq<IdentityGroup>, id: Seq<char>) -> bool {
    exists|i: int| 0 <= i < groups.len() && (#[trigger] groups[i]).identity@ == id
}

/// The groups are those of the models: one for each identity, in order.
pub open spec fn are_identity_groups(
    models: Seq<ModelMeta>,
    disk: Seq<DiskFact>,
    running: Seq<Seq<char>>,
    groups: Seq<IdentityGroup>,
) -> bool {
    &&& forall|i: int|
        0 <= i < groups.len() ==> is_identity_group(models, disk, running, #[trigger] groups[i])
    &&& forall|i: int, j: int|
        0 <= i < j < groups.len() ==> lex_below(
            (#[trigger] groups[i]).identity@,
            (#[trigger] groups[j]).identity@,
        )
    &&& forall|m: int|
        0 <= m < models.len() ==> lists_identity(groups, identity_of(#[trigger] models[m]))
}

fn artifacts_at(
    models: &Vec<ModelMeta>,
    disk: &Vec<DiskFact>,
    running: &Vec<String>,
    at: &Vec<usize>,
) -> (r: Vec<ArtifactView>)
    requires
        disk@.len() == models@.len(),
        forall|k: int| 0 <= k < at@.len() ==> #[trigger] at@[k] < models@.len(),
    ensures
        are_artifacts(
            models@,
            disk@,
            texts(running@),
            Seq::new(at@.len(), |k: int| at@[k] as int),
            r@,
        ),
{
    let ghost pos = Seq::new(at@.len(), |k: int| at@[k] as int);
    let mut keys: Vec<String> = Vec::new();
    let mut i: usize = 0;
    while i < at.len()
        invariant
            forall|k: int| 0 <= k < at@.len() ==> #[trigger] at@[k] < models@.len(),
            i <= at@.len(),
            keys@.len() == i,
            forall|k: int| 0 <= k < i ==> (#[trigger] keys@[k])@ == models@[at@[k] as int].path@,
        decreases at@.len() - i,
    {
        keys.push(owned(models[at[i]].path.as_str()));
        i = i + 1;
    }
    let ranking = Alphabetical { keys };
    let p = stable_order(&ranking);
    let mut r: Vec<ArtifactView> = Vec::new();
    let mut k: usize = 0;
    while k < p.len()
        invariant
            disk@.len() == models@.len(),
            is_stable_order(&ranking, p@),
            ranking.keys@.len() == at@.len(),
            forall|j: int| 0 <= j < at@.len() ==> #[trigger] at@[j] < models@.len(),
            k <= p@.len(),
            r@.len() == k,
            forall|j: int|
                0 <= j < k ==> is_artifact(
                    #[trigger] r@[j],
                    models@[at@[p@[j] as int] as int],
                    disk@[at@[p@[j] as int] as int],
                    texts(running@),
                ),
        decreases p@.len() - k,
    {
        assert(p@[k as int] < at@.len());
        let m = &models[at[p[k]]];
        let d = &disk[at[p[k]]];
        let live = has_text(running, m.path.as_str()) || has_text(running, d.canonical.as_str());
        r.push(
            ArtifactView {
                path: owned(m.path.as_str()),
                name: owned(m.name.as_str()),
                quant: clone_opt(&m.quant),
                bytes: m.footprint,
                lifecycle: classify(d.exists, live),
            },
        );
        k = k + 1;
    }
    proof {
        let less = model_path_below(models@, pos);
        lemma_in_order(&ranking, p@, less);
        assert(in_order(p@, pos.len(), less));
        assert forall|j: int| 0 <= j < r@.len() implies is_artifact(
            #[trigger] r@[j],
            models@[pos[p@[j] as int]],
            disk@[pos[p@[j] as int]],
            texts(running@),
        ) by {
            assert(p@[j] < at@.len());
        }
    }
    r
}

fn arch_at(models: &Vec<ModelMeta>, at: &Vec<usize>) -> (r: Option<String>)
    requires
        forall|k: int| 0 <= k < at@.len() ==> #[trigger] at@[k] < models@.len(),
    ensures
        opt_text(r) == first_arch(models@, Seq::new(at@.len(), |k: int| at@[k] as int), 0),
{
    let ghost pos = Seq::new(at@.len(), |k: int| at@[k] as int);
    let mut i: usize = 0;
    while i < at.len()
        invariant
            pos == Seq::new(at@.len(), |k: int| at@[k] as int),
            forall|k: int| 0 <= k < at@.len() ==> #[trigger] at@[k] < models@.len(),
            i <= at@.len(),
            first_arch(models@, pos, 0) == first_arch(models@, pos, i as int),
        decreases at@.len() - i,
    {
        assert(pos[i as int] == at@[i as int]);
        match &models[at[i]].arch {
            Some(a) => {
                return Some(owned(a.as_str()));
            },
            None => {},
        }
        i = i + 1;
    }
    None
}

fn identity_group(
    models: &Vec<ModelMeta>,
    disk: &Vec<DiskFact>,
    running: &Vec<String>,
    id: &str,
    at: &Vec<usize>,
) -> (g: IdentityGroup)
    requires
        disk@.len() == models@.len(),
        Seq::new(at@.len(), |k: int| at@[k] as int) == members_of(models@, id@),
        forall|k: int| 0 <= k < at@.len() ==> #[trigger] at@[k] < models@.len(),
        at@.len() > 0,
        copies_countable(models@),
    ensures
        is_identity_group(models@, disk@, texts(running@), g),
        g.identity@ == id@,
{
    let ghost pos = Seq::new(at@.len(), |k: int| at@[k] as int);
    assert(footprint_at(models@, members_of(models@, id@)) <= u64::MAX);
    let mut names: Vec<String> = Vec::new();
    let mut i: usize = 0;
    while i < at.len()
        invariant
            forall|k: int| 0 <= k < at@.len() ==> #[trigger] at@[k] < models@.len(),
            i <= at@.len(),
            names@.len() == i,
            forall|k: int| 0 <= k < i ==> (#[trigger] names@[k])@ == models@[at@[k] as int].name@,
        decreases at@.len() - i,
    {
        names.push(owned(models[at[i]].name.as_str()));
        i = i + 1;
    }
    assert(texts(names@) =~= names_at(models@, pos));
    IdentityGroup {
        identity: owned(id),
        arch: arch_at(models, at),
        display_name: display_name_for(&names),
        artifacts: artifacts_at(models, disk, running, at),
        total_bytes: sum_at(models, at),
    }
}

/// The identities of the models, each once.
pub open spec fn are_identities(models: Seq<ModelMeta>, ids: Seq<Seq<char>>, n: int) -> bool {
    &&& ids.no_duplicates()
    &&& forall|k: int|
        0 <= k < ids.len() ==> exists|m: int|
            0 <= m < n && identity_of(#[trigger] models[m]) == #[trigger] ids[k]
    &&& forall|m: int| 0 <= m < n ==> ids.contains(identity_of(#[trigger] models[m]))
}

fn distinct_identities(models: &Vec<ModelMeta>, ids: &Vec<String>) -> (r: Vec<String>)
    requires
        ids@.len() == models@.len(),
        forall|i: int| 0 <= i < ids@.len() ==> (#[trigger] ids@[i])@ == identity_of(models@[i]),
    ensures
        are_identities(models@, texts(r@), models@.len() as int),
{
    let mut r: Vec<String> = Vec::new();
    let mut i: usize = 0;
    while i < ids.len()
        invariant
            ids@.len() == models@.len(),
            forall|i: int| 0 <= i < ids@.len() ==> (#[trigger] ids@[i])@ == identity_of(models@[i]),
            i <= ids@.len(),
            are_identities(models@, texts(r@), i as int),
        decreases ids@.len() - i,
    {
        let ghost before = texts(r@);
        let ghost id = identity_of(models@[i as int]);
        if !has_text(&r, ids[i].as_str()) {
            r.push(owned(ids[i].as_str()));
            assert(texts(r@) =~= before.push(id));
        }
        proof {
            let after = texts(r@);
            assert forall|k: int| 0 <= k < after.len() implies exists|m: int|
                0 <= m < i + 1 && identity_of(#[trigger] models@[m]) == #[trigger] after[k] by {
                if k < before.len() {
                    assert(after[k] == before[k]);
                    let m = choose|m: int|
                        0 <= m < i && identity_of(#[trigger] models@[m]) == before[k];
                    assert(identity_of(models@[m]) == after[k]);
                } else {
                    assert(identity_of(models@[i as int]) == after[k]);
                }
            }
            assert forall|m: int| 0 <= m < i + 1 implies after.contains(
                identity_of(#[trigger] models@[m]),
            ) by {
                if m < i {
                    let k = choose|k: int|
                        0 <= k < before.len() && before[k] == identity_of(models@[m]);
                    assert(after[k] == before[k]);
                } else if !before.contains(id) {
                    assert(after[before.len() as int] == id);
                }
            }
        }
        i = i + 1;
    }
    r
}

/// Groups artifacts by identity, with what lives of each. `disk` says what the
/// filesystem knows of each model, `running_paths` which models live slots run.
#[verifier::rlimit(30)]
pub fn group_identities(
    models: &Vec<ModelMeta>,
    disk: &Vec<DiskFact>,
    running_paths: &Vec<String>,
) -> (r: Vec<IdentityGroup>)
    requires
        disk@.len() == models@.len(),
        copies_countable(models@),
    ensures
        are_identity_groups(models@, disk@, texts(running_paths@), r@),
{
    let n = models.len();
    let mut ids: Vec<String> = Vec::new();
    let mut i: usize = 0;
    while i < n
        invariant
            n == models@.len(),
            i <= n,
            ids@.len() == i,
            forall|j: int| 0 <= j < i ==> (#[trigger] ids@[j])@ == identity_of(models@[j]),
        decreases n - i,
    {
        ids.push(models[i].identity());
        i = i + 1;
    }
    let keys = distinct_identities(models, &ids);
    let ghost names = texts(keys@);
    let ranking = Alphabetical { keys };
    let p = stable_order(&ranking);
    let mut r: Vec<IdentityGroup> = Vec::new();
    let mut k: usize = 0;
    while k < p.len()
        invariant
            n == models@.len(),
            disk@.len() == n,
            copies_countable(models@),
            ids@.len() == n,
            forall|j: int| 0 <= j < n ==> (#[trigger] ids@[j])@ == identity_of(models@[j]),
            names == texts(ranking.keys@),
            are_identities(models@, names, n as int),
            is_stable_order(&ranking, p@),
            k <= p@.len(),
            r@.len() == k,
            forall|j: int|
                0 <= j < k ==> is_identity_group(
                    models@,
                    disk@,
                    texts(running_paths@),
                    #[trigger] r@[j],
                ) && r@[j].identity@ == names[p@[j] as int],
        decreases p@.len() - k,
    {
        assert(p@[k as int] < ranking.keys@.len());
        let id = ranking.keys[p[k]].as_str();
        assert(names[p@[k as int] as int] == id@);
        let at = positions_of(&ids, models, id);
        proof {
            let m = choose|m: int| 0 <= m < n && identity_of(#[trigger] models@[m]) == id@;
            lemma_member_there(models@, id@, m, n as int);
            assert(Seq::new(at@.len(), |k: int| at@[k] as int) =~= members_of(models@, id@));
        }
        r.push(identity_group(models, disk, running_paths, id, &at));
        k = k + 1;
    }
    proof {
        assert forall|i: int, j: int| 0 <= i < j < r@.len() implies lex_below(
            (#[trigger] r@[i]).identity@,
            (#[trigger] r@[j]).identity@,
        ) by {
            let a = p@[i] as int;
            let b = p@[j] as int;
            assert(stands_before(&ranking, a, b));
            assert(a != b);
            assert(names[a] != names[b]);
            lemma_lex_total(names[a], names[b]);
        }
        assert forall|m: int| 0 <= m < models@.len() implies lists_identity(
            r@,
            identity_of(#[trigger] models@[m]),
        ) by {
            let id = identity_of(models@[m]);
            let x = choose|x: int| 0 <= x < names.len() && names[x] == id;
            let y = lemma_permutation_hits(p@, names.len(), x);
            assert(r@[y].identity@ == id);
        }
    }
    r
}

proof fn lemma_member_there(models: Seq<ModelMeta>, id: Seq<char>, m: int, n: int)
    requires
        0 <= m < n <= models.len(),
        identity_of(models[m]) == id,
    ensures
        members_upto(models, id, n).len() > 0,
    decreases n,
{
    if m < n - 1 {
        lemma_member_there(models, id, m, n - 1);
    }
}

/// The bytes that the first `n` models put into the first `k` groups.
spec fn bytes_in_groups(models: Seq<ModelMeta>, groups: Seq<IdentityGroup>, n: int, k: int) -> nat
    decreases k,
{
    if k <= 0 {
        0
    } else {
        bytes_in_groups(models, groups, n, k - 1) + footprint_at(
            models,
            members_upto(models, groups[k - 1].identity@, n),
        )
    }
}

proof fn lemma_one_more_model(
    models: Seq<ModelMeta>,
    groups: Seq<IdentityGroup>,
    n: int,
    k: int,
    g: int,
)
    requires
        0 < n <= models.len(),
        0 <= k <= groups.len(),
        0 <= g < groups.len(),
        groups[g].identity@ == identity_of(models[n - 1]),
        forall|i: int|
            0 <= i < groups.len() && i != g ==> (#[trigger] groups[i]).identity@ != identity_of(
                models[n - 1],
            ),
    ensures
        bytes_in_groups(models, groups, n, k) == bytes_in_groups(models, groups, n - 1, k) + if g
            < k {
            models[n - 1].footprint as nat
        } else {
            0nat
        },
    decreases k,
{
    if k > 0 {
        lemma_one_more_model(models, groups, n, k - 1, g);
        let id = groups[k - 1].identity@;
        let rest = members_upto(models, id, n - 1);
        if k - 1 == g {
            assert(members_upto(models, id, n) == rest.push(n - 1));
            assert(rest.push(n - 1).drop_last() =~= rest);
        } else {
            assert(members_upto(models, id, n) == rest);
        }
    }
}

proof fn lemma_no_models(models: Seq<ModelMeta>, groups: Seq<IdentityGroup>, k: int)
    ensures
        bytes_in_groups(models, groups, 0, k) == 0,
    decreases k,
{
    if k > 0 {
        lemma_no_models(models, groups, k - 1);
    }
}

proof fn lemma_bytes_of_models(models: Seq<ModelMeta>, groups: Seq<IdentityGroup>, n: int)
    requires
        0 <= n <= models.len(),
        forall|i: int, j: int|
            0 <= i < j < groups.len() ==> lex_below(
                (#[trigger] groups[i]).identity@,
                (#[trigger] groups[j]).identity@,
            ),
        forall|m: int|
            0 <= m < models.len() ==> lists_identity(groups, identity_of(#[trigger] models[m])),
    ensures
        bytes_in_groups(models, groups, n, groups.len() as int) == total_footprint(models.take(n)),
    decreases n,
{
    if n > 0 {
        lemma_bytes_of_models(models, groups, n - 1);
        assert(models.take(n).drop_last() =~= models.take(n - 1));
        assert(models.take(n).last() == models[n - 1]);
        let id = identity_of(models[n - 1]);
        assert(lists_identity(groups, id));
        let g = choose|g: int| 0 <= g < groups.len() && (#[trigger] groups[g]).identity@ == id;
        assert forall|i: int| 0 <= i < groups.len() && i != g implies (
        #[trigger] groups[i]).identity@ != id by {
            lemma_lex_total(id, id);
            if i < g {
                assert(lex_below(groups[i].identity@, groups[g].identity@));
            } else {
                assert(lex_below(groups[g].identity@, groups[i].identity@));
            }
        }
        lemma_one_more_model(models, groups, n, groups.len() as int, g);
    } else {
        lemma_no_models(models, groups, groups.len() as int);
        assert(models.take(0) =~= Seq::<ModelMeta>::empty());
    }
}

/// The bytes of the first `k` groups.
pub open spec fn group_bytes(groups: Seq<IdentityGroup>, k: int) -> nat
    decreases k,
{
    if k <= 0 {
        0
    } else {
        group_bytes(groups, k - 1) + groups[k - 1].total_bytes as nat
    }
}

proof fn lemma_group_bytes(
    models: Seq<ModelMeta>,
    disk: Seq<DiskFact>,
    running: Seq<Seq<char>>,
    groups: Seq<IdentityGroup>,
    k: int,
)
    requires
        0 <= k <= groups.len(),
        are_identity_groups(models, disk, running, groups),
    ensures
        group_bytes(groups, k) == bytes_in_groups(models, groups, models.len() as int, k),
    decreases k,
{
    if k > 0 {
        lemma_group_bytes(models, disk, running, groups, k - 1);
        assert(is_identity_group(models, disk, running, groups[k - 1]));
    }
}

/// The groups account for every byte of the artifacts, once.
pub proof fn law_groups_hold_all_bytes(
    models: Seq<ModelMeta>,
    disk: Seq<DiskFact>,
    running: Seq<Seq<char>>,
    groups: Seq<IdentityGroup>,
)
    requires
        are_identity_groups(models, disk, running, groups),
    ensures
        group_bytes(groups, groups.len() as int) == total_footprint(models),
{
    lemma_group_bytes(models, disk, running, groups, groups.len() as int);
    lemma_bytes_of_models(models, groups, models.len() as int);
    assert(models.take(models.len() as int) =~= models);
}

/// Where a configuration value comes from: recommended, or set by the user.
#[derive(Debug, Clone, Copy, PartialEq, Eq, Structural)]
pub enum ConfigOrigin {
    Auto,
    Override,
}

impl Default for ConfigOrigin {
    fn default() -> (r: Self)
        ensures
            r == ConfigOrigin::Auto,
    {
        ConfigOrigin::Auto
    }
}

impl ConfigOrigin {
    pub fn tag(self) -> (r: &'static str)
        ensures
            r@ == match self {
                ConfigOrigin::Auto => "auto"@,
                ConfigOrigin::Override => "override"@,
            },
    {
        match self {
            ConfigOrigin::Auto => "auto",
            ConfigOrigin::Override => "override",
        }
    }
}

/// What a configuration was derived from: the runtime, the artifact and the
/// hardware, the automatic baseline, and the fields that were changed since.
#[derive(Debug, Clone, PartialEq)]
pub struct Provenance {
    pub runtime_id: String,
    pub artifact_path: String,
    pub vram_mb: u64,
    pub why: String,
    pub baseline: Profile,
    pub overridden_fields: Vec<String>,
}

/// The fields of a profile, in order, each with whether it differs.
pub open spec fn field_marks(a: Profile, b: Profile) -> Seq<(Seq<char>, bool)> {
    seq![
        ("alias"@, a.alias@ != b.alias@),
        ("bin"@, a.bin@ != b.bin@),
        ("ctx_ladder"@, a.ctx_ladder@ != b.ctx_ladder@),
        ("ctx_size"@, a.ctx_size != b.ctx_size),
        ("draft_model"@, opt_text(a.draft_model) != opt_text(b.draft_model)),
        ("engine"@, a.engine != b.engine),
        ("flash_attn"@, a.flash_attn != b.flash_attn),
        ("ft_backend"@, opt_text(a.ft_backend) != opt_text(b.ft_backend)),
        ("ft_moe_cache_size"@, a.ft_moe_cache_size != b.ft_moe_cache_size),
        ("host"@, a.host@ != b.host@),
        ("kv_cache_type_k"@, opt_text(a.kv_cache_type_k) != opt_text(b.kv_cache_type_k)),
        ("kv_cache_type_v"@, opt_text(a.kv_cache_type_v) != opt_text(b.kv_cache_type_v)),
        ("load_mode"@, opt_text(a.load_mode) != opt_text(b.load_mode)),
        ("mem_max_mb"@, a.mem_max_mb != b.mem_max_mb),
        ("mem_swap_max_mb"@, a.mem_swap_max_mb != b.mem_swap_max_mb),
        ("metrics"@, a.metrics != b.metrics),
        ("model"@, a.model@ != b.model@),
        ("n_gpu_layers"@, a.n_gpu_layers != b.n_gpu_layers),
        ("name"@, a.name@ != b.name@),
        ("parallel"@, a.parallel != b.parallel),
        ("params"@, a.params@ != b.params@),
        ("port"@, a.port != b.port),
        ("reasoning"@, opt_text(a.reasoning) != opt_text(b.reasoning)),
        ("reasoning_budget"@, a.reasoning_budget != b.reasoning_budget),
        ("reasoning_effort"@, opt_text(a.reasoning_effort) != opt_text(b.reasoning_effort)),
        ("reasoning_format"@, opt_text(a.reasoning_format) != opt_text(b.reasoning_format)),
        ("runtime_id"@, opt_text(a.runtime_id) != opt_text(b.runtime_id)),
        ("spec_type"@, opt_text(a.spec_type) != opt_text(b.spec_type)),
        ("temperature"@, a.temperature@ != b.temperature@),
        ("top_k"@, a.top_k != b.top_k),
        ("top_p"@, a.top_p@ != b.top_p@),
        ("ubatch_size"@, a.ubatch_size != b.ubatch_size),
    ]
}

/// The names among the first `n` that are marked.
pub open spec fn marked_upto(marks: Seq<(Seq<char>, bool)>, n: int) -> Seq<Seq<char>>
    decreases n,
{
    if n <= 0 {
        Seq::empty()
    } else if marks[n - 1].1 {
        marked_upto(marks, n - 1).push(marks[n - 1].0)
    } else {
        marked_upto(marks, n - 1)
    }
}

fn same_opt(a: &Option<String>, b: &Option<String>) -> (r: bool)
    ensures
        r == (opt_text(*a) == opt_text(*b)),
{
    match (a, b) {
        (Some(x), Some(y)) => same(x.as_str(), y.as_str()),
        (None, None) => true,
        _ => false,
    }
}

fn same_u32(a: Option<u32>, b: Option<u32>) -> (r: bool)
    ensures
        r == (a == b),
{
    match (a, b) {
        (Some(x), Some(y)) => x == y,
        (None, None) => true,
        _ => false,
    }
}

fn same_u64(a: Option<u64>, b: Option<u64>) -> (r: bool)
    ensures
        r == (a == b),
{
    match (a, b) {
        (Some(x), Some(y)) => x == y,
        (None, None) => true,
        _ => false,
    }
}

fn same_ladder(a: &Vec<u32>, b: &Vec<u32>) -> (r: bool)
    ensures
        r == (a@ == b@),
{
    if a.len() != b.len() {
        return false;
    }
    let mut i: usize = 0;
    while i < a.len()
        invariant
            a@.len() == b@.len(),
            i <= a@.len(),
            forall|j: int| 0 <= j < i ==> #[trigger] a@[j] == b@[j],
        decreases a@.len() - i,
    {
        if a[i] != b[i] {
            return false;
        }
        i = i + 1;
    }
    assert(a@ =~= b@);
    true
}

fn same_params(a: &Params, b: &Params) -> (r: bool)
    ensures
        r == (a@ == b@),
{
    if a.len() != b.len() {
        return false;
    }
    let mut i: usize = 0;
    while i < a.len()
        invariant
            a@.len() == b@.len(),
            i <= a@.len(),
            forall|j: int| 0 <= j < i ==> #[trigger] a@[j] == b@[j],
        decreases a@.len() - i,
    {
        let x = a.entry(i);
        let y = b.entry(i);
        if !same(x.0, y.0) || !same(x.1, y.1) {
            return false;
        }
        i = i + 1;
    }
    assert(a@ =~= b@);
    true
}

/// Takes the next field into the list where it is marked.
fn note(
    r: &mut Vec<String>,
    name: &str,
    differs: bool,
    Ghost(all): Ghost<Seq<(Seq<char>, bool)>>,
    Ghost(i): Ghost<int>,
)
    requires
        0 <= i < all.len(),
        all[i] == (name@, differs),
        texts(old(r)@) == marked_upto(all, i),
    ensures
        texts(final(r)@) == marked_upto(all, i + 1),
{
    let ghost before = texts(r@);
    if differs {
        r.push(owned(name));
        assert(texts(r@) =~= before.push(name@));
    }
}

/// The names of the fields in which an edited profile differs from its
/// automatic baseline, in order.
#[verifier::rlimit(50)]
pub fn diff_fields(baseline: &Profile, edited: &Profile) -> (r: Vec<String>)
    ensures
        texts(r@) == marked_upto(field_marks(*baseline, *edited), 32),
{
    let a = baseline;
    let b = edited;
    let ghost all = field_marks(*baseline, *edited);
    let mut r: Vec<String> = Vec::new();
    assert(texts(r@) =~= marked_upto(all, 0));
    note(&mut r, "alias", !same(a.alias.as_str(), b.alias.as_str()), Ghost(all), Ghost(0));
    note(&mut r, "bin", !same(a.bin.as_str(), b.bin.as_str()), Ghost(all), Ghost(1));
    note(&mut r, "ctx_ladder", !same_ladder(&a.ctx_ladder, &b.ctx_ladder), Ghost(all), Ghost(2));
    note(&mut r, "ctx_size", a.ctx_size != b.ctx_size, Ghost(all), Ghost(3));
    note(&mut r, "draft_model", !same_opt(&a.draft_model, &b.draft_model), Ghost(all), Ghost(4));
    note(&mut r, "engine", a.engine != b.engine, Ghost(all), Ghost(5));
    note(&mut r, "flash_attn", a.flash_attn != b.flash_attn, Ghost(all), Ghost(6));
    note(&mut r, "ft_backend", !same_opt(&a.ft_backend, &b.ft_backend), Ghost(all), Ghost(7));
    note(&mut r, "ft_moe_cache_size", !same_u32(a.ft_moe_cache_size, b.ft_moe_cache_size), Ghost(all), Ghost(8));
    note(&mut r, "host", !same(a.host.as_str(), b.host.as_str()), Ghost(all), Ghost(9));
    note(&mut r, "kv_cache_type_k", !same_opt(&a.kv_cache_type_k, &b.kv_cache_type_k), Ghost(all), Ghost(10));
    note(&mut r, "kv_cache_type_v", !same_opt(&a.kv_cache_type_v, &b.kv_cache_type_v), Ghost(all), Ghost(11));
    note(&mut r, "load_mode", !same_opt(&a.load_mode, &b.load_mode), Ghost(all), Ghost(12));
    note(&mut r, "mem_max_mb", !same_u64(a.mem_max_mb, b.mem_max_mb), Ghost(all), Ghost(13));
    note(&mut r, "mem_swap_max_mb", !same_u64(a.mem_swap_max_mb, b.mem_swap_max_mb), Ghost(all), Ghost(14));
    note(&mut r, "metrics", a.metrics != b.metrics, Ghost(all), Ghost(15));
    note(&mut r, "model", !same(a.model.as_str(), b.model.as_str()), Ghost(all), Ghost(16));
    note(&mut r, "n_gpu_layers", a.n_gpu_layers != b.n_gpu_layers, Ghost(all), Ghost(17));
    note(&mut r, "name", !same(a.name.as_str(), b.name.as_str()), Ghost(all), Ghost(18));
    note(&mut r, "parallel", a.parallel != b.parallel, Ghost(all), Ghost(19));
    note(&mut r, "params", !same_params(&a.params, &b.params), Ghost(all), Ghost(20));
    note(&mut r, "port", a.port != b.port, Ghost(all), Ghost(21));
    note(&mut r, "reasoning", !same_opt(&a.reasoning, &b.reasoning), Ghost(all), Ghost(22));
    note(&mut r, "reasoning_budget", !same_u32(a.reasoning_budget, b.reasoning_budget), Ghost(all), Ghost(23));
    note(&mut r, "reasoning_effort", !same_opt(&a.reasoning_effort, &b.reasoning_effort), Ghost(all), Ghost(24));
    note(&mut r, "reasoning_format", !same_opt(&a.reasoning_format, &b.reasoning_format), Ghost(all), Ghost(25));
    note(&mut r, "runtime_id", !same_opt(&a.runtime_id, &b.runtime_id), Ghost(all), Ghost(26));
    note(&mut r, "spec_type", !same_opt(&a.spec_type, &b.spec_type), Ghost(all), Ghost(27));
    note(&mut r, "temperature", !same(a.temperature.as_str(), b.temperature.as_str()), Ghost(all), Ghost(28));
    note(&mut r, "top_k", a.top_k != b.top_k, Ghost(all), Ghost(29));
    note(&mut r, "top_p", !same(a.top_p.as_str(), b.top_p.as_str()), Ghost(all), Ghost(30));
    note(&mut r, "ubatch_size", a.ubatch_size != b.ubatch_size, Ghost(all), Ghost(31));
    r
}

proof fn lemma_no_marks(marks: Seq<(Seq<char>, bool)>, n: int)
    requires
        0 <= n <= marks.len(),
    ensures
        marked_upto(marks, n).len() == 0 <==> forall|k: int|
            0 <= k < n ==> !(#[trigger] marks[k]).1,
    decreases n,
{
    if n > 0 {
        lemma_no_marks(marks, n - 1);
        assert(marks[n - 1].1 == marks[n - 1].1);
    }
}

/// Nothing is reported exactly where the two profiles hold the same values.
pub proof fn law_no_diff_means_same(a: Profile, b: Profile)
    ensures
        marked_upto(field_marks(a, b), 32).len() == 0 <==> same_profile(a, b),
{
    let m = field_marks(a, b);
    lemma_no_marks(m, 32);
    if marked_upto(m, 32).len() == 0 {
        assert(!m[0].1);
        assert(!m[1].1);
        assert(!m[2].1);
        assert(!m[3].1);
        assert(!m[4].1);
        assert(!m[5].1);
        assert(!m[6].1);
        assert(!m[7].1);
        assert(!m[8].1);
        assert(!m[9].1);
        assert(!m[10].1);
        assert(!m[11].1);
        assert(!m[12].1);
        assert(!m[13].1);
        assert(!m[14].1);
        assert(!m[15].1);
        assert(!m[16].1);
        assert(!m[17].1);
        assert(!m[18].1);
        assert(!m[19].1);
        assert(!m[20].1);
        assert(!m[21].1);
        assert(!m[22].1);
        assert(!m[23].1);
        assert(!m[24].1);
        assert(!m[25].1);
        assert(!m[26].1);
        assert(!m[27].1);
        assert(!m[28].1);
        assert(!m[29].1);
        assert(!m[30].1);
        assert(!m[31].1);
    }
}

/// The path that an artifact is known by: its canonical one, where the
/// filesystem gives one.
pub fn canon(path: &str, resolved: Option<&str>) -> (r: String)
    ensures
        r@ == match resolved {
            Some(c) => c@,
            None => path@,
        },
{
    match resolved {
        Some(c) => owned(c),
        None => owned(path),
    }
}

} // verus!
