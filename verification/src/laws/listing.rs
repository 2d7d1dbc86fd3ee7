//! What a scan takes, the names of paths, and how the library lists artifacts.
use vstd::prelude::*;

use crate::dedup::members_of;
use crate::laws::inventory::{copies_bytes, lemma_members};
use crate::library::{
    before_separator, begins_stem, diff_fields, display_name_for, field_marks, first_arch,
    group_identities, is_artifact, is_identity_group, lists_identity, marked_upto, model_path_below,
    names_at, without_gguf, ArtifactView, DiskFact, IdentityGroup, Lifecycle,
};
use crate::model::{identity_of, same_meta, ModelMeta};
use crate::order::{in_order, lemma_permutation_hits};
use crate::paths::{
    last_pos, lemma_last_pos, path_extension, path_file_name, path_file_stem, path_key,
    trim_slashes,
};
use crate::profile::Profile;
use crate::scanner::{
    classify, dedup_and_sort, default_roots, firsts_upto, is_first, keep, skipped_dirs,
    walks_before, Candidate, EntryKind,
};
use crate::text::{contains, has_prefix, lex_below, opt_text, texts};

verus! {

/// What is walked: nothing hidden but the cache, no directory of builds or of
/// version control, and nothing in the trash.
pub proof fn law_what_is_walked(name: &str, path: &str, r: bool)
    requires
        call_ensures(keep, (name, path), r),
    ensures
        r <==> {
            &&& name@.len() > 0 && name@[0] == '.' ==> name@ == ".cache"@
            &&& name@ != "node_modules"@
            &&& name@ != "target"@
            &&& name@ != ".git"@
            &&& name@ != "build-dir"@
            &&& name@ != "dist"@
            &&& name@ != "vendor"@
            &&& name@ != "Clone"@
            &&& !contains(path@, "/Trash/"@)
            &&& !contains(path@, ".Trash"@)
        },
{
    reveal_strlit(".");
    if name@.len() > 0 {
        assert(name@.subrange(0, 1) =~= seq![name@[0]]);
        assert("."@ =~= seq!['.']);
    }
    let d = skipped_dirs();
    assert(d[0] == "node_modules"@ && d[1] == "target"@ && d[2] == ".git"@ && d[3] == "build-dir"@
        && d[4] == "dist"@ && d[5] == "vendor"@ && d[6] == "Clone"@);
    assert(d.len() == 7);
    if name@ != d[0] && name@ != d[1] && name@ != d[2] && name@ != d[3] && name@ != d[4] && name@
        != d[5] && name@ != d[6] {
        assert(!d.contains(name@));
    } else {
        assert(d.contains(name@));
    }
    assert("."@.len() == 1);
    if has_prefix(name@, "."@) {
        assert(name@.subrange(0, 0 + "."@.len() as int)[0] == name@[0]);
    } else if name@.len() > 0 && name@[0] == '.' {
        assert(name@.subrange(0, 0 + "."@.len() as int) =~= "."@);
    }
}

/// What is taken for a model: a directory that is one, or a file with the
/// extension `gguf` of more than a MiB whose name speaks of no vocabulary.
pub proof fn law_what_is_taken(
    path: &str,
    kind: EntryKind,
    bytes: u64,
    is_model_dir: bool,
    r: Candidate,
    name: Option<String>,
    ext: Option<String>,
)
    requires
        call_ensures(classify, (path, kind, bytes, is_model_dir), r),
        call_ensures(path_file_name, (path,), name),
        call_ensures(path_extension, (path,), ext),
    ensures
        r == Candidate::ModelDir <==> kind == EntryKind::Dir && is_model_dir,
        r == Candidate::GgufFile <==> {
            &&& kind == EntryKind::File
            &&& ext is Some && (ext->0)@ == "gguf"@
            &&& name is Some && !contains((name->0)@, "ggml-vocab"@)
            &&& bytes > 1_048_576
        },
{
}

proof fn lemma_trimmed(s: Seq<char>, n: nat)
    requires
        s.len() > 0 ==> s.last() != '/' && !(s.len() > 1 && s.last() == '.' && s[s.len() - 2]
            == '/'),
    ensures
        trim_slashes(s + Seq::new(n, |i: int| '/')) == s,
    decreases n,
{
    let t = s + Seq::new(n, |i: int| '/');
    if n > 0 {
        lemma_trimmed(s, (n - 1) as nat);
        assert(t.drop_last() =~= s + Seq::new((n - 1) as nat, |i: int| '/'));
        assert(t.last() == '/');
    } else {
        assert(t =~= s);
    }
}

proof fn lemma_last_is(a: Seq<char>, c: char, b: Seq<char>)
    requires
        forall|i: int| 0 <= i < b.len() ==> #[trigger] b[i] != c,
    ensures
        last_pos(a + seq![c] + b, c) == Some(a.len() as int),
{
    let s = a + seq![c] + b;
    lemma_last_pos(s, c);
    assert(s[a.len() as int] == c);
    let p = last_pos(s, c);
    assert(p is Some);
    if p->0 > a.len() {
        assert(s[p->0] == b[p->0 - a.len() - 1]);
    }
}

/// The name of a file is what stands behind the last slash; slashes at the end
/// do not count. Its extension stands behind the last dot, its stem before it.
pub proof fn law_names_of_files(
    path: &str,
    dir: Seq<char>,
    name: Seq<char>,
    slashes: nat,
    r: Option<String>,
    stem: Option<String>,
    ext: Option<String>,
)
    requires
        call_ensures(path_file_name, (path,), r),
        call_ensures(path_file_stem, (path,), stem),
        call_ensures(path_extension, (path,), ext),
        forall|i: int| 0 <= i < name.len() ==> #[trigger] name[i] != '/',
        name.len() > 0,
        name != seq!['.'],
        name != seq!['.', '.'],
        path@ == dir + seq!['/'] + name + Seq::new(slashes, |i: int| '/') || path@ == name
            + Seq::new(slashes, |i: int| '/'),
    ensures
        r is Some,
        (r->0)@ == name,
        stem is Some,
        ext is None <==> forall|i: int| 0 < i < name.len() ==> #[trigger] name[i] != '.',
        ext is None ==> (stem->0)@ == name,
        ext is Some ==> {
            &&& name == (stem->0)@ + seq!['.'] + (ext->0)@
            &&& (stem->0)@.len() > 0
            &&& forall|i: int| 0 <= i < (ext->0)@.len() ==> #[trigger] (ext->0)@[i] != '.'
        },
{
    let full = if path@ == name + Seq::new(slashes, |i: int| '/') {
        name
    } else {
        dir + seq!['/'] + name
    };
    assert(full.last() == name.last());
    assert(name[name.len() - 1] != '/');
    if full.len() > 1 && full.last() == '.' && full[full.len() - 2] == '/' {
        if name.len() > 1 {
            assert(full[full.len() - 2] == name[name.len() - 2]);
        } else {
            assert(name =~= seq!['.']);
        }
    }
    lemma_trimmed(full, slashes);
    lemma_last_pos(full, '/');
    if full == name {
        assert(last_pos(full, '/') is None);
    } else {
        lemma_last_is(dir, '/', name);
        assert(full.skip(dir.len() as int + 1) =~= name);
    }
    assert(crate::paths::last_step(full) == name);
    lemma_last_pos(name, '.');
    if ext is Some {
        let i = last_pos(name, '.')->0;
        assert(name =~= name.take(i) + seq!['.'] + name.skip(i + 1));
        assert forall|k: int| 0 <= k < (ext->0)@.len() implies #[trigger] (ext->0)@[k] != '.' by {
            assert((ext->0)@[k] == name[i + 1 + k]);
        }
    }
}

/// Nothing but slashes, or a step to the parent with slashes behind it.
pub open spec fn leads_nowhere(path: Seq<char>, dir: Seq<char>, slashes: nat) -> bool {
    ||| path == Seq::new(slashes, |i: int| '/')
    ||| path == seq!['.', '.'] + Seq::new(slashes, |i: int| '/')
    ||| path == dir + seq!['/', '.', '.'] + Seq::new(slashes, |i: int| '/')
}

/// A path of nothing but slashes, or one that ends in a step to the parent,
/// leads to no name.
pub proof fn law_paths_without_a_name(path: &str, dir: Seq<char>, slashes: nat, r: Option<String>)
    requires
        call_ensures(path_file_name, (path,), r),
        leads_nowhere(path@, dir, slashes),
    ensures
        r is None,
{
    let empty = Seq::<char>::empty();
    let up = seq!['.', '.'];
    if path@ == Seq::new(slashes, |i: int| '/') {
        lemma_trimmed(empty, slashes);
        assert(path@ =~= empty + Seq::new(slashes, |i: int| '/'));
        lemma_last_pos(empty, '/');
    } else if path@ == up + Seq::new(slashes, |i: int| '/') {
        lemma_trimmed(up, slashes);
        lemma_last_pos(up, '/');
    } else {
        let full = dir + seq!['/', '.', '.'];
        lemma_trimmed(full, slashes);
        assert(full =~= dir + seq!['/'] + up);
        lemma_last_is(dir, '/', up);
        assert(full.skip(dir.len() as int + 1) =~= up);
    }
}

/// A scan starts in the home directory, the model store and the hub cache.
pub proof fn law_roots(home: &str, models_dir: &str, r: Vec<String>)
    requires
        call_ensures(default_roots, (home, models_dir), r),
        home@.len() > 0,
        home@.last() != '/',
    ensures
        r@.len() == 3,
        r@[0]@ == home@,
        r@[1]@ == models_dir@,
        r@[2]@ == home@ + "/.cache/huggingface/hub"@,
{
    assert(texts(r@).len() == 3);
    assert(texts(r@)[0] == r@[0]@ && texts(r@)[1] == r@[1]@ && texts(r@)[2] == r@[2]@);
    reveal_strlit("/.cache/huggingface/hub");
    reveal_strlit(".cache/huggingface/hub");
    reveal_strlit("/");
    assert(r@[2]@ =~= home@ + "/.cache/huggingface/hub"@);
}

proof fn lemma_firsts(canonical: Seq<Seq<char>>, n: int)
    requires
        0 <= n <= canonical.len(),
    ensures
        forall|k: int|
            0 <= k < firsts_upto(canonical, n).len() ==> 0 <= #[trigger] firsts_upto(
                canonical,
                n,
            )[k] < n && is_first(canonical, firsts_upto(canonical, n)[k]),
        forall|k: int, l: int|
            0 <= k < l < firsts_upto(canonical, n).len() ==> #[trigger] firsts_upto(
                canonical,
                n,
            )[k] < #[trigger] firsts_upto(canonical, n)[l],
        forall|i: int|
            0 <= i < n && #[trigger] is_first(canonical, i) ==> firsts_upto(
                canonical,
                n,
            ).contains(i),
    decreases n,
{
    if n > 0 {
        lemma_firsts(canonical, n - 1);
        let rest = firsts_upto(canonical, n - 1);
        let all = firsts_upto(canonical, n);
        assert forall|i: int| 0 <= i < n && #[trigger] is_first(canonical, i) implies all.contains(
            i,
        ) by {
            if i == n - 1 {
                assert(all[rest.len() as int] == i);
            } else {
                assert(rest.contains(i));
                let x = choose|x: int| 0 <= x < rest.len() && rest[x] == i;
                assert(all[x] == i);
            }
        }
    }
}

/// No earlier model has the canonical path of model `i`.
pub open spec fn is_new(canonical: Seq<String>, i: int) -> bool {
    forall|j: int| 0 <= j < i ==> (#[trigger] canonical[j])@ != canonical[i]@
}

/// A scan lists, of the models with one canonical path, the first, and all of
/// those by path: each listed model is at its place in `at`.
pub proof fn law_scan_lists_each_file_once(
    found: &Vec<ModelMeta>,
    canonical: &Vec<String>,
    r: Vec<ModelMeta>,
) -> (at: Seq<int>)
    requires
        call_ensures(dedup_and_sort, (found, canonical), r),
        canonical@.len() == found@.len(),
    ensures
        at.len() == r@.len(),
        at.no_duplicates(),
        forall|i: int|
            0 <= i < found@.len() ==> (at.contains(i) <==> #[trigger] is_new(canonical@, i)),
        forall|k: int|
            0 <= k < at.len() ==> 0 <= #[trigger] at[k] < found@.len() && same_meta(
                r@[k],
                found@[at[k]],
            ),
        forall|k: int, l: int|
            0 <= k < l < r@.len() ==> !lex_below(
                path_key((#[trigger] r@[l]).path@),
                path_key((#[trigger] r@[k]).path@),
            ),
{
    let all = texts(canonical@);
    let n = found@.len() as int;
    let firsts = firsts_upto(all, n);
    lemma_firsts(all, n);
    let v = r@;
    let p = choose|p: Seq<usize>|
        #[trigger] in_order(p, firsts.len(), walks_before(found@, firsts)) && v.len()
            == firsts.len() && forall|i: int|
            0 <= i < v.len() ==> same_meta(#[trigger] v[i], found@[firsts[p[i] as int]]);
    let at = Seq::new(v.len(), |k: int| firsts[p[k] as int]);
    assert forall|k: int, l: int| 0 <= k < at.len() && 0 <= l < at.len() && k != l implies at[k]
        != at[l] by {
        assert(p[k] < firsts.len() && p[l] < firsts.len() && p[k] != p[l]);
        if p[k] < p[l] {
            assert(firsts[p[k] as int] < firsts[p[l] as int]);
        } else {
            assert(firsts[p[l] as int] < firsts[p[k] as int]);
        }
    }
    assert forall|i: int| 0 <= i < n implies (at.contains(i) <==> #[trigger] is_new(
        canonical@,
        i,
    )) by {
        assert(is_new(canonical@, i) <==> is_first(all, i)) by {
            assert(all[i] == canonical@[i]@);
            if is_first(all, i) {
                assert forall|j: int| 0 <= j < i implies (#[trigger] canonical@[j])@
                    != canonical@[i]@ by {
                    assert(all[j] != all[i]);
                }
            }
        }
        if is_new(canonical@, i) {
            assert(firsts.contains(i));
            let x = choose|x: int| 0 <= x < firsts.len() && firsts[x] == i;
            let k = lemma_permutation_hits(p, firsts.len(), x);
            assert(at[k] == i);
        }
        if at.contains(i) {
            let k = choose|k: int| 0 <= k < at.len() && at[k] == i;
            assert(p[k] < firsts.len());
            assert(is_first(all, firsts[p[k] as int]));
        }
    }
    assert forall|k: int| 0 <= k < at.len() implies 0 <= #[trigger] at[k] < found@.len()
        && same_meta(r@[k], found@[at[k]]) by {
        assert(p[k] < firsts.len());
    }
    assert forall|k: int, l: int| 0 <= k < l < r@.len() implies !lex_below(
        path_key((#[trigger] r@[l]).path@),
        path_key((#[trigger] r@[k]).path@),
    ) by {
        assert(p[k] < firsts.len() && p[l] < firsts.len());
        crate::text::lemma_lex(path_key(r@[k].path@), path_key(r@[l].path@), path_key(r@[k].path@));
    }
    at
}

proof fn lemma_without_gguf(base: Seq<char>, n: nat, name: Seq<char>)
    requires
        !ends_in_gguf(base),
        name == base + extensions(n),
    ensures
        without_gguf(name) == base,
    decreases n,
{
    reveal_strlit(".gguf");
    if n == 0 {
        assert(name =~= base);
    } else {
        let shorter = base + extensions((n - 1) as nat);
        assert(name =~= shorter + ".gguf"@);
        assert(name.take(name.len() - 5) =~= shorter);
        assert(name.subrange(name.len() - 5, name.len() as int) =~= ".gguf"@);
        lemma_without_gguf(base, (n - 1) as nat, shorter);
    }
}

/// The extension, so many times.
pub open spec fn extensions(n: nat) -> Seq<char>
    decreases n,
{
    if n == 0 {
        Seq::empty()
    } else {
        extensions((n - 1) as nat) + ".gguf"@
    }
}

/// The text ends in the extension.
pub open spec fn ends_in_gguf(s: Seq<char>) -> bool {
    s.len() >= 5 && s.subrange(s.len() - 5, s.len() as int) == ".gguf"@
}

/// A hyphen, an underscore or a blank.
pub open spec fn parts_names(c: char) -> bool {
    c == '-' || c == '_' || c == ' '
}

proof fn lemma_before_separator(s: Seq<char>, stem: Seq<char>, c: char, tail: Seq<char>)
    requires
        s == stem + seq![c] + tail,
        parts_names(c),
        forall|i: int| 0 <= i < tail.len() ==> !parts_names(#[trigger] tail[i]),
    ensures
        before_separator(s) == Some(stem),
    decreases tail.len(),
{
    if tail.len() == 0 {
        assert(s.last() == c);
        assert(s.drop_last() =~= stem);
    } else {
        assert(s.last() == tail[tail.len() - 1]);
        let shorter = s.drop_last();
        assert(shorter =~= stem + seq![c] + tail.drop_last());
        lemma_before_separator(shorter, stem, c, tail.drop_last());
    }
}

/// A group goes by what stands in the first name before its last separator,
/// the extension aside, where that has four bytes or more and begins every
/// name; else by the first name.
pub proof fn law_display_name(
    names: &Vec<String>,
    r: String,
    base: Seq<char>,
    n: nat,
    stem: Seq<char>,
    c: char,
    tail: Seq<char>,
)
    requires
        call_ensures(display_name_for, (names,), r),
        names@.len() > 0,
        names@[0]@ == base + extensions(n),
        !ends_in_gguf(base),
        base == stem + seq![c] + tail,
        parts_names(c),
        forall|i: int| 0 <= i < tail.len() ==> !parts_names(#[trigger] tail[i]),
    ensures
        vstd::utf8::encode_utf8(stem).len() <= usize::MAX && vstd::utf8::encode_utf8(stem).len()
            >= 4 && (forall|i: int|
            0 <= i < names@.len() ==> has_prefix(without_gguf((#[trigger] names@[i])@), stem))
            ==> r@ == stem,
        (exists|i: int|
            0 <= i < names@.len() && !has_prefix(without_gguf((#[trigger] names@[i])@), stem))
            ==> r@ == names@[0]@,
        vstd::utf8::encode_utf8(stem).len() < 4 ==> r@ == names@[0]@,
{
    let all = texts(names@);
    assert(all[0] == names@[0]@);
    lemma_without_gguf(base, n, all[0]);
    lemma_before_separator(base, stem, c, tail);
    if forall|i: int|
        0 <= i < names@.len() ==> has_prefix(without_gguf((#[trigger] names@[i])@), stem) {
        assert forall|i: int| 0 <= i < all.len() implies begins_stem(#[trigger] all[i], stem) by {
            assert(all[i] == names@[i]@);
        }
    }
    if exists|i: int|
        0 <= i < names@.len() && !has_prefix(without_gguf((#[trigger] names@[i])@), stem) {
        let i = choose|i: int|
            0 <= i < names@.len() && !has_prefix(without_gguf((#[trigger] names@[i])@), stem);
        assert(!begins_stem(all[i], stem));
    }
}

/// The extension is taken off, however often it stands at the end.
pub proof fn law_extension_is_taken_off(name: Seq<char>, base: Seq<char>, n: nat)
    requires
        !ends_in_gguf(base),
        name == base + extensions(n),
    ensures
        without_gguf(name) == base,
{
    lemma_without_gguf(base, n, name);
}

proof fn lemma_no_separator(s: Seq<char>)
    requires
        forall|i: int| 0 <= i < s.len() ==> !parts_names(#[trigger] s[i]),
    ensures
        before_separator(s) is None,
    decreases s.len(),
{
    if s.len() > 0 {
        assert(!parts_names(s[s.len() - 1]));
        let t = s.drop_last();
        assert forall|i: int| 0 <= i < t.len() implies !parts_names(#[trigger] t[i]) by {
            assert(t[i] == s[i]);
        }
        lemma_no_separator(t);
    }
}

/// Without names a group goes by a name of its own; where the first name has
/// no separator, by that.
pub proof fn law_plain_display_name(names: &Vec<String>, r: String, base: Seq<char>, n: nat)
    requires
        call_ensures(display_name_for, (names,), r),
        names@.len() > 0 ==> names@[0]@ == base + extensions(n),
        !ends_in_gguf(base),
        forall|i: int| 0 <= i < base.len() ==> !parts_names(#[trigger] base[i]),
    ensures
        names@.len() == 0 ==> r@ == "unknown model"@,
        names@.len() > 0 ==> r@ == names@[0]@,
{
    if names@.len() > 0 {
        assert(texts(names@)[0] == names@[0]@);
        lemma_without_gguf(base, n, names@[0]@);
        lemma_no_separator(base);
    }
}

/// The name is that of a field in which the two profiles differ.
pub open spec fn names_a_difference(a: Profile, b: Profile, name: Seq<char>) -> bool {
    ||| name == "alias"@ && a.alias@ != b.alias@
    ||| name == "bin"@ && a.bin@ != b.bin@
    ||| name == "ctx_ladder"@ && a.ctx_ladder@ != b.ctx_ladder@
    ||| name == "ctx_size"@ && a.ctx_size != b.ctx_size
    ||| name == "draft_model"@ && opt_text(a.draft_model) != opt_text(b.draft_model)
    ||| name == "engine"@ && a.engine != b.engine
    ||| name == "flash_attn"@ && a.flash_attn != b.flash_attn
    ||| name == "ft_backend"@ && opt_text(a.ft_backend) != opt_text(b.ft_backend)
    ||| name == "ft_moe_cache_size"@ && a.ft_moe_cache_size != b.ft_moe_cache_size
    ||| name == "host"@ && a.host@ != b.host@
    ||| name == "kv_cache_type_k"@ && opt_text(a.kv_cache_type_k) != opt_text(b.kv_cache_type_k)
    ||| name == "kv_cache_type_v"@ && opt_text(a.kv_cache_type_v) != opt_text(b.kv_cache_type_v)
    ||| name == "load_mode"@ && opt_text(a.load_mode) != opt_text(b.load_mode)
    ||| name == "mem_max_mb"@ && a.mem_max_mb != b.mem_max_mb
    ||| name == "mem_swap_max_mb"@ && a.mem_swap_max_mb != b.mem_swap_max_mb
    ||| name == "metrics"@ && a.metrics != b.metrics
    ||| name == "model"@ && a.model@ != b.model@
    ||| name == "n_gpu_layers"@ && a.n_gpu_layers != b.n_gpu_layers
    ||| name == "name"@ && a.name@ != b.name@
    ||| name == "parallel"@ && a.parallel != b.parallel
    ||| name == "params"@ && a.params@ != b.params@
    ||| name == "port"@ && a.port != b.port
    ||| name == "reasoning"@ && opt_text(a.reasoning) != opt_text(b.reasoning)
    ||| name == "reasoning_budget"@ && a.reasoning_budget != b.reasoning_budget
    ||| name == "reasoning_effort"@ && opt_text(a.reasoning_effort) != opt_text(b.reasoning_effort)
    ||| name == "reasoning_format"@ && opt_text(a.reasoning_format) != opt_text(b.reasoning_format)
    ||| name == "runtime_id"@ && opt_text(a.runtime_id) != opt_text(b.runtime_id)
    ||| name == "spec_type"@ && opt_text(a.spec_type) != opt_text(b.spec_type)
    ||| name == "temperature"@ && a.temperature@ != b.temperature@
    ||| name == "top_k"@ && a.top_k != b.top_k
    ||| name == "top_p"@ && a.top_p@ != b.top_p@
    ||| name == "ubatch_size"@ && a.ubatch_size != b.ubatch_size
}

proof fn lemma_marked(marks: Seq<(Seq<char>, bool)>, n: int, x: int) -> (k: int)
    requires
        0 <= n <= marks.len(),
        0 <= x < marked_upto(marks, n).len(),
    ensures
        0 <= k < n,
        marks[k].1,
        marks[k].0 == marked_upto(marks, n)[x],
    decreases n,
{
    if n > 0 && marks[n - 1].1 && x == marked_upto(marks, n - 1).len() {
        n - 1
    } else {
        lemma_marked(marks, n - 1, x)
    }
}

proof fn lemma_marked_has(marks: Seq<(Seq<char>, bool)>, n: int, k: int)
    requires
        0 <= k < n <= marks.len(),
        marks[k].1,
    ensures
        marked_upto(marks, n).contains(marks[k].0),
    decreases n,
{
    if k < n - 1 {
        lemma_marked_has(marks, n - 1, k);
        let rest = marked_upto(marks, n - 1);
        let x = choose|x: int| 0 <= x < rest.len() && rest[x] == marks[k].0;
        assert(marked_upto(marks, n)[x] == marks[k].0);
    } else {
        assert(marked_upto(marks, n)[marked_upto(marks, n - 1).len() as int] == marks[k].0);
    }
}

/// The marks of two profiles, place by place.
spec fn are_marks(a: Profile, b: Profile, all: Seq<(Seq<char>, bool)>) -> bool {
    &&& all.len() == 32
    &&& all[0] == ("alias"@, a.alias@ != b.alias@)
    &&& all[1] == ("bin"@, a.bin@ != b.bin@)
    &&& all[2] == ("ctx_ladder"@, a.ctx_ladder@ != b.ctx_ladder@)
    &&& all[3] == ("ctx_size"@, a.ctx_size != b.ctx_size)
    &&& all[4] == ("draft_model"@, opt_text(a.draft_model) != opt_text(b.draft_model))
    &&& all[5] == ("engine"@, a.engine != b.engine)
    &&& all[6] == ("flash_attn"@, a.flash_attn != b.flash_attn)
    &&& all[7] == ("ft_backend"@, opt_text(a.ft_backend) != opt_text(b.ft_backend))
    &&& all[8] == ("ft_moe_cache_size"@, a.ft_moe_cache_size != b.ft_moe_cache_size)
    &&& all[9] == ("host"@, a.host@ != b.host@)
    &&& all[10] == ("kv_cache_type_k"@, opt_text(a.kv_cache_type_k) != opt_text(b.kv_cache_type_k))
    &&& all[11] == ("kv_cache_type_v"@, opt_text(a.kv_cache_type_v) != opt_text(b.kv_cache_type_v))
    &&& all[12] == ("load_mode"@, opt_text(a.load_mode) != opt_text(b.load_mode))
    &&& all[13] == ("mem_max_mb"@, a.mem_max_mb != b.mem_max_mb)
    &&& all[14] == ("mem_swap_max_mb"@, a.mem_swap_max_mb != b.mem_swap_max_mb)
    &&& all[15] == ("metrics"@, a.metrics != b.metrics)
    &&& all[16] == ("model"@, a.model@ != b.model@)
    &&& all[17] == ("n_gpu_layers"@, a.n_gpu_layers != b.n_gpu_layers)
    &&& all[18] == ("name"@, a.name@ != b.name@)
    &&& all[19] == ("parallel"@, a.parallel != b.parallel)
    &&& all[20] == ("params"@, a.params@ != b.params@)
    &&& all[21] == ("port"@, a.port != b.port)
    &&& all[22] == ("reasoning"@, opt_text(a.reasoning) != opt_text(b.reasoning))
    &&& all[23] == ("reasoning_budget"@, a.reasoning_budget != b.reasoning_budget)
    &&& all[24] == ("reasoning_effort"@, opt_text(a.reasoning_effort) != opt_text(b.reasoning_effort))
    &&& all[25] == ("reasoning_format"@, opt_text(a.reasoning_format) != opt_text(b.reasoning_format))
    &&& all[26] == ("runtime_id"@, opt_text(a.runtime_id) != opt_text(b.runtime_id))
    &&& all[27] == ("spec_type"@, opt_text(a.spec_type) != opt_text(b.spec_type))
    &&& all[28] == ("temperature"@, a.temperature@ != b.temperature@)
    &&& all[29] == ("top_k"@, a.top_k != b.top_k)
    &&& all[30] == ("top_p"@, a.top_p@ != b.top_p@)
    &&& all[31] == ("ubatch_size"@, a.ubatch_size != b.ubatch_size)
}

proof fn lemma_are_marks(a: Profile, b: Profile)
    ensures
        are_marks(a, b, field_marks(a, b)),
{
}

proof fn lemma_one_difference(a: Profile, b: Profile, all: Seq<(Seq<char>, bool)>, k: int)
    requires
        are_marks(a, b, all),
        0 <= k < 32,
        all[k].1,
    ensures
        names_a_difference(a, b, all[k].0),
{
    if k == 0 {
    } else if k == 1 {
    } else if k == 2 {
    } else if k == 3 {
    } else if k == 4 {
    } else if k == 5 {
    } else if k == 6 {
    } else if k == 7 {
    } else if k == 8 {
    } else if k == 9 {
    } else if k == 10 {
    } else if k == 11 {
    } else if k == 12 {
    } else if k == 13 {
    } else if k == 14 {
    } else if k == 15 {
    } else if k == 16 {
    } else if k == 17 {
    } else if k == 18 {
    } else if k == 19 {
    } else if k == 20 {
    } else if k == 21 {
    } else if k == 22 {
    } else if k == 23 {
    } else if k == 24 {
    } else if k == 25 {
    } else if k == 26 {
    } else if k == 27 {
    } else if k == 28 {
    } else if k == 29 {
    } else if k == 30 {
    } else if k == 31 {
    }
}

proof fn lemma_all_marked(all: Seq<(Seq<char>, bool)>)
    requires
        all.len() == 32,
    ensures
        forall|k: int|
            0 <= k < 32 && (#[trigger] all[k]).1 ==> marked_upto(all, 32).contains(all[k].0),
{
    assert forall|k: int| 0 <= k < 32 && (#[trigger] all[k]).1 implies marked_upto(
        all,
        32,
    ).contains(all[k].0) by {
        lemma_marked_has(all, 32, k);
    }
}

proof fn lemma_differences(
    a: Profile,
    b: Profile,
    all: Seq<(Seq<char>, bool)>,
    names: Seq<Seq<char>>,
)
    requires
        are_marks(a, b, all),
        forall|k: int| 0 <= k < 32 && (#[trigger] all[k]).1 ==> names.contains(all[k].0),
    ensures
        a.alias@ != b.alias@ ==> names.contains("alias"@),
        a.bin@ != b.bin@ ==> names.contains("bin"@),
        a.ctx_ladder@ != b.ctx_ladder@ ==> names.contains("ctx_ladder"@),
        a.ctx_size != b.ctx_size ==> names.contains("ctx_size"@),
        opt_text(a.draft_model) != opt_text(b.draft_model) ==> names.contains("draft_model"@),
        a.engine != b.engine ==> names.contains("engine"@),
        a.flash_attn != b.flash_attn ==> names.contains("flash_attn"@),
        opt_text(a.ft_backend) != opt_text(b.ft_backend) ==> names.contains("ft_backend"@),
        a.ft_moe_cache_size != b.ft_moe_cache_size ==> names.contains("ft_moe_cache_size"@),
        a.host@ != b.host@ ==> names.contains("host"@),
        opt_text(a.kv_cache_type_k) != opt_text(b.kv_cache_type_k) ==> names.contains("kv_cache_type_k"@),
        opt_text(a.kv_cache_type_v) != opt_text(b.kv_cache_type_v) ==> names.contains("kv_cache_type_v"@),
        opt_text(a.load_mode) != opt_text(b.load_mode) ==> names.contains("load_mode"@),
        a.mem_max_mb != b.mem_max_mb ==> names.contains("mem_max_mb"@),
        a.mem_swap_max_mb != b.mem_swap_max_mb ==> names.contains("mem_swap_max_mb"@),
        a.metrics != b.metrics ==> names.contains("metrics"@),
        a.model@ != b.model@ ==> names.contains("model"@),
        a.n_gpu_layers != b.n_gpu_layers ==> names.contains("n_gpu_layers"@),
        a.name@ != b.name@ ==> names.contains("name"@),
        a.parallel != b.parallel ==> names.contains("parallel"@),
        a.params@ != b.params@ ==> names.contains("params"@),
        a.port != b.port ==> names.contains("port"@),
        opt_text(a.reasoning) != opt_text(b.reasoning) ==> names.contains("reasoning"@),
        a.reasoning_budget != b.reasoning_budget ==> names.contains("reasoning_budget"@),
        opt_text(a.reasoning_effort) != opt_text(b.reasoning_effort) ==> names.contains("reasoning_effort"@),
        opt_text(a.reasoning_format) != opt_text(b.reasoning_format) ==> names.contains("reasoning_format"@),
        opt_text(a.runtime_id) != opt_text(b.runtime_id) ==> names.contains("runtime_id"@),
        opt_text(a.spec_type) != opt_text(b.spec_type) ==> names.contains("spec_type"@),
        a.temperature@ != b.temperature@ ==> names.contains("temperature"@),
        a.top_k != b.top_k ==> names.contains("top_k"@),
        a.top_p@ != b.top_p@ ==> names.contains("top_p"@),
        a.ubatch_size != b.ubatch_size ==> names.contains("ubatch_size"@),
{
}

/// What is reported of an edited profile is each field that differs from the
/// baseline, by its name, and no other.
pub proof fn law_differences(a: &Profile, b: &Profile, r: Vec<String>)
    requires
        call_ensures(diff_fields, (a, b), r),
    ensures
        forall|i: int| 0 <= i < r@.len() ==> names_a_difference(*a, *b, (#[trigger] r@[i])@),
        a.alias@ != b.alias@ ==> texts(r@).contains("alias"@),
        a.bin@ != b.bin@ ==> texts(r@).contains("bin"@),
        a.ctx_ladder@ != b.ctx_ladder@ ==> texts(r@).contains("ctx_ladder"@),
        a.ctx_size != b.ctx_size ==> texts(r@).contains("ctx_size"@),
        opt_text(a.draft_model) != opt_text(b.draft_model) ==> texts(r@).contains("draft_model"@),
        a.engine != b.engine ==> texts(r@).contains("engine"@),
        a.flash_attn != b.flash_attn ==> texts(r@).contains("flash_attn"@),
        opt_text(a.ft_backend) != opt_text(b.ft_backend) ==> texts(r@).contains("ft_backend"@),
        a.ft_moe_cache_size != b.ft_moe_cache_size ==> texts(r@).contains("ft_moe_cache_size"@),
        a.host@ != b.host@ ==> texts(r@).contains("host"@),
        opt_text(a.kv_cache_type_k) != opt_text(b.kv_cache_type_k) ==> texts(r@).contains("kv_cache_type_k"@),
        opt_text(a.kv_cache_type_v) != opt_text(b.kv_cache_type_v) ==> texts(r@).contains("kv_cache_type_v"@),
        opt_text(a.load_mode) != opt_text(b.load_mode) ==> texts(r@).contains("load_mode"@),
        a.mem_max_mb != b.mem_max_mb ==> texts(r@).contains("mem_max_mb"@),
        a.mem_swap_max_mb != b.mem_swap_max_mb ==> texts(r@).contains("mem_swap_max_mb"@),
        a.metrics != b.metrics ==> texts(r@).contains("metrics"@),
        a.model@ != b.model@ ==> texts(r@).contains("model"@),
        a.n_gpu_layers != b.n_gpu_layers ==> texts(r@).contains("n_gpu_layers"@),
        a.name@ != b.name@ ==> texts(r@).contains("name"@),
        a.parallel != b.parallel ==> texts(r@).contains("parallel"@),
        a.params@ != b.params@ ==> texts(r@).contains("params"@),
        a.port != b.port ==> texts(r@).contains("port"@),
        opt_text(a.reasoning) != opt_text(b.reasoning) ==> texts(r@).contains("reasoning"@),
        a.reasoning_budget != b.reasoning_budget ==> texts(r@).contains("reasoning_budget"@),
        opt_text(a.reasoning_effort) != opt_text(b.reasoning_effort) ==> texts(r@).contains("reasoning_effort"@),
        opt_text(a.reasoning_format) != opt_text(b.reasoning_format) ==> texts(r@).contains("reasoning_format"@),
        opt_text(a.runtime_id) != opt_text(b.runtime_id) ==> texts(r@).contains("runtime_id"@),
        opt_text(a.spec_type) != opt_text(b.spec_type) ==> texts(r@).contains("spec_type"@),
        a.temperature@ != b.temperature@ ==> texts(r@).contains("temperature"@),
        a.top_k != b.top_k ==> texts(r@).contains("top_k"@),
        a.top_p@ != b.top_p@ ==> texts(r@).contains("top_p"@),
        a.ubatch_size != b.ubatch_size ==> texts(r@).contains("ubatch_size"@),
{
    let all = field_marks(*a, *b);
    let names = texts(r@);
    lemma_are_marks(*a, *b);
    lemma_all_marked(all);
    assert(names == marked_upto(all, 32));
    lemma_differences(*a, *b, all, names);
    assert forall|i: int| 0 <= i < r@.len() implies names_a_difference(
        *a,
        *b,
        (#[trigger] r@[i])@,
    ) by {
        assert(names[i] == r@[i]@);
        let k = lemma_marked(all, 32, i);
        lemma_one_difference(*a, *b, all, k);
    }
}

/// The artifact shows the model, and is running where a live run has its path,
/// as given or canonical; else installed where its file exists.
pub open spec fn shows(
    a: ArtifactView,
    m: ModelMeta,
    d: DiskFact,
    running: Seq<Seq<char>>,
) -> bool {
    &&& a.path@ == m.path@
    &&& a.name@ == m.name@
    &&& opt_text(a.quant) == opt_text(m.quant)
    &&& a.bytes == m.footprint
    &&& a.lifecycle == Lifecycle::Running <==> running.contains(m.path@) || running.contains(
        d.canonical@,
    )
    &&& a.lifecycle == Lifecycle::Discovered <==> !d.exists && !running.contains(m.path@)
        && !running.contains(d.canonical@)
}

/// One of the artifacts shows the model.
pub open spec fn has_shown(
    v: Seq<ArtifactView>,
    m: ModelMeta,
    d: DiskFact,
    running: Seq<Seq<char>>,
) -> bool {
    exists|k: int| 0 <= k < v.len() && shows(#[trigger] v[k], m, d, running)
}

/// The artifact shows one of the models with an identity.
pub open spec fn is_shown(
    models: Seq<ModelMeta>,
    disk: Seq<DiskFact>,
    running: Seq<Seq<char>>,
    id: Seq<char>,
    a: ArtifactView,
) -> bool {
    exists|m: int|
        {
            &&& 0 <= m < models.len()
            &&& identity_of(#[trigger] models[m]) == id
            &&& shows(a, models[m], disk[m], running)
        }
}

proof fn lemma_group(
    models: Seq<ModelMeta>,
    disk: Seq<DiskFact>,
    running: Seq<Seq<char>>,
    g: IdentityGroup,
)
    requires
        is_identity_group(models, disk, running, g),
        disk.len() == models.len(),
    ensures
        g.total_bytes == copies_bytes(models, g.identity@, models.len() as int),
        forall|m: int|
            0 <= m < models.len() && identity_of(#[trigger] models[m]) == g.identity@ ==> has_shown(
                g.artifacts@,
                models[m],
                disk[m],
                running,
            ),
        forall|k: int|
            0 <= k < g.artifacts@.len() ==> is_shown(
                models,
                disk,
                running,
                g.identity@,
                #[trigger] g.artifacts@[k],
            ),
        forall|k: int, l: int|
            0 <= k < l < g.artifacts@.len() ==> !lex_below(
                (#[trigger] g.artifacts@[l]).path@,
                (#[trigger] g.artifacts@[k]).path@,
            ),
{
    let at = members_of(models, g.identity@);
    lemma_members(models, g.identity@, models.len() as int);
    let v = g.artifacts@;
    let p = choose|p: Seq<usize>|
        #[trigger] in_order(p, at.len(), model_path_below(models, at)) && v.len() == at.len()
            && forall|i: int|
            0 <= i < v.len() ==> is_artifact(
                #[trigger] v[i],
                models[at[p[i] as int]],
                disk[at[p[i] as int]],
                running,
            );
    assert forall|m: int| 0 <= m < models.len() && identity_of(#[trigger] models[m])
        == g.identity@ implies has_shown(v, models[m], disk[m], running) by {
        assert(at.contains(m));
        let x = choose|x: int| 0 <= x < at.len() && at[x] == m;
        let k = lemma_permutation_hits(p, at.len(), x);
        assert(is_artifact(v[k], models[m], disk[m], running));
        assert(shows(v[k], models[m], disk[m], running));
    }
    assert forall|k: int| 0 <= k < v.len() implies is_shown(
        models,
        disk,
        running,
        g.identity@,
        #[trigger] v[k],
    ) by {
        assert(p[k] < at.len());
        let m = at[p[k] as int];
        assert(identity_of(models[m]) == g.identity@);
        assert(is_artifact(v[k], models[m], disk[m], running));
        assert(shows(v[k], models[m], disk[m], running));
    }
    assert forall|k: int, l: int| 0 <= k < l < v.len() implies !lex_below(
        (#[trigger] v[l]).path@,
        (#[trigger] v[k]).path@,
    ) by {
        assert(p[k] < at.len() && p[l] < at.len());
        assert(is_artifact(v[k], models[at[p[k] as int]], disk[at[p[k] as int]], running));
        assert(is_artifact(v[l], models[at[p[l] as int]], disk[at[p[l] as int]], running));
        crate::text::lemma_lex(v[k].path@, v[l].path@, v[k].path@);
    }
}

/// The artifacts of one identity stand in one group, each with its lifecycle,
/// by path; the group holds their bytes. The groups come by identity, none
/// twice, and every model has its group.
pub proof fn law_groups_of_the_library(
    models: &Vec<ModelMeta>,
    disk: &Vec<DiskFact>,
    running: &Vec<String>,
    r: Vec<IdentityGroup>,
    i: int,
)
    requires
        call_ensures(group_identities, (models, disk, running), r),
        disk@.len() == models@.len(),
        0 <= i < r@.len(),
    ensures
        r@[i].total_bytes == copies_bytes(models@, r@[i].identity@, models@.len() as int),
        forall|m: int|
            0 <= m < models@.len() && identity_of(#[trigger] models@[m]) == r@[i].identity@
                ==> has_shown(r@[i].artifacts@, models@[m], disk@[m], texts(running@)),
        forall|k: int|
            0 <= k < r@[i].artifacts@.len() ==> is_shown(
                models@,
                disk@,
                texts(running@),
                r@[i].identity@,
                #[trigger] r@[i].artifacts@[k],
            ),
        forall|k: int, l: int|
            0 <= k < l < r@[i].artifacts@.len() ==> !lex_below(
                (#[trigger] r@[i].artifacts@[l]).path@,
                (#[trigger] r@[i].artifacts@[k]).path@,
            ),
        forall|j: int|
            i < j < r@.len() ==> lex_below(r@[i].identity@, (#[trigger] r@[j]).identity@),
        r@[i].artifacts@.len() > 0,
{
    assert(is_identity_group(models@, disk@, texts(running@), r@[i]));
    lemma_group(models@, disk@, texts(running@), r@[i]);
}

/// Every model has its group.
pub proof fn law_every_model_has_its_group(
    models: &Vec<ModelMeta>,
    disk: &Vec<DiskFact>,
    running: &Vec<String>,
    r: Vec<IdentityGroup>,
    m: int,
)
    requires
        call_ensures(group_identities, (models, disk, running), r),
        0 <= m < models@.len(),
    ensures
        exists|i: int|
            0 <= i < r@.len() && (#[trigger] r@[i]).identity@ == identity_of(models@[m]),
{
    assert(lists_identity(r@, identity_of(models@[m])));
}

proof fn lemma_first_arch(models: Seq<ModelMeta>, at: Seq<int>, i: int)
    requires
        0 <= i <= at.len(),
    ensures
        first_arch(models, at, i) is None ==> forall|k: int|
            i <= k < at.len() ==> models[#[trigger] at[k]].arch is None,
        first_arch(models, at, i) is Some ==> exists|k: int|
            {
                &&& i <= k < at.len()
                &&& opt_text(models[#[trigger] at[k]].arch) == first_arch(models, at, i)
                &&& forall|j: int| i <= j < k ==> models[#[trigger] at[j]].arch is None
            },
    decreases at.len() - i,
{
    if i < at.len() && models[at[i]].arch is None {
        lemma_first_arch(models, at, i + 1);
        if first_arch(models, at, i) is Some {
            let k = choose|k: int|
                {
                    &&& i + 1 <= k < at.len()
                    &&& opt_text(models[#[trigger] at[k]].arch) == first_arch(models, at, i + 1)
                    &&& forall|j: int| i + 1 <= j < k ==> models[#[trigger] at[j]].arch is None
                };
            assert(opt_text(models[at[k]].arch) == first_arch(models, at, i));
        }
    } else if i < at.len() {
        assert(opt_text(models[at[i]].arch) == first_arch(models, at, i));
    }
}

proof fn lemma_group_arch(models: Seq<ModelMeta>, id: Seq<char>)
    ensures
        first_arch(models, members_of(models, id), 0) is None ==> forall|m: int|
            0 <= m < models.len() && identity_of(#[trigger] models[m]) == id ==> models[m].arch
                is None,
        first_arch(models, members_of(models, id), 0) is Some ==> exists|m: int|
            0 <= m < models.len() && identity_of(#[trigger] models[m]) == id && opt_text(
                models[m].arch,
            ) == first_arch(models, members_of(models, id), 0),
{
    let at = members_of(models, id);
    lemma_members(models, id, models.len() as int);
    lemma_first_arch(models, at, 0);
    if first_arch(models, at, 0) is None {
        assert forall|m: int| 0 <= m < models.len() && identity_of(#[trigger] models[m]) == id implies
            models[m].arch is None by {
            assert(at.contains(m));
            let k = choose|k: int| 0 <= k < at.len() && at[k] == m;
            assert(models[at[k]].arch is None);
        }
    } else {
        let k = choose|k: int|
            {
                &&& 0 <= k < at.len()
                &&& opt_text(models[#[trigger] at[k]].arch) == first_arch(models, at, 0)
                &&& forall|j: int| 0 <= j < k ==> models[#[trigger] at[j]].arch is None
            };
        assert(identity_of(models[at[k]]) == id);
    }
}

/// A group has the architecture of one of its models, where one is known, and
/// goes by the name that its models' names give.
pub proof fn law_architecture_of_a_group(
    models: &Vec<ModelMeta>,
    disk: &Vec<DiskFact>,
    running: &Vec<String>,
    r: Vec<IdentityGroup>,
    i: int,
    names: &Vec<String>,
    name: String,
)
    requires
        call_ensures(group_identities, (models, disk, running), r),
        0 <= i < r@.len(),
        texts(names@) == names_at(models@, members_of(models@, r@[i].identity@)),
        call_ensures(display_name_for, (names,), name),
    ensures
        r@[i].arch is None ==> forall|m: int|
            0 <= m < models@.len() && identity_of(#[trigger] models@[m]) == r@[i].identity@
                ==> models@[m].arch is None,
        r@[i].arch is Some ==> exists|m: int|
            0 <= m < models@.len() && identity_of(#[trigger] models@[m]) == r@[i].identity@
                && opt_text(models@[m].arch) == opt_text(r@[i].arch),
        r@[i].display_name@ == name@,
{
    assert(is_identity_group(models@, disk@, texts(running@), r@[i]));
    lemma_group_arch(models@, r@[i].identity@);
}

} // verus!
