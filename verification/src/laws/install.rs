//! What is downloaded, how it is checked, and where it is put.
use vstd::prelude::*;

use crate::engines::install::{
    asset_from, execute, filename_of, is_newer, latest_matching_tag, parse_btag, pick_asset,
    release_from, resolve_recipe, step_views, substitute_tag, tagged_from, unpack_mode,
    verify_sha256, GhAsset, GhRelease, InstallPlan, InstallStep, Resolved, StepView, Unpack,
};
use crate::laws::text::lemma_parted;
use crate::paths::{last_pos, lemma_last_pos, path_key};
use crate::runtime::{path_in, RuntimeManifest};
use crate::text::{
    ascii_lower, contains, has_suffix, lowercased, opt_str, opt_text, parse_number, trim, words,
};

verus! {

/// The asset has an address, and its name holds the pattern in whatever case.
pub open spec fn is_wanted(a: GhAsset, pattern: Seq<char>) -> bool {
    a.browser_download_url@.len() > 0 && contains(lowercased(a.name@), lowercased(pattern))
}

/// Asset `k` is the first that is wanted.
pub open spec fn is_first_wanted(assets: Seq<GhAsset>, pattern: Seq<char>, k: int) -> bool {
    &&& 0 <= k < assets.len()
    &&& is_wanted(assets[k], pattern)
    &&& forall|j: int| 0 <= j < k ==> !is_wanted(#[trigger] assets[j], pattern)
}

/// None of the assets is wanted.
pub open spec fn none_wanted(assets: Seq<GhAsset>, pattern: Seq<char>) -> bool {
    forall|j: int| 0 <= j < assets.len() ==> !is_wanted(#[trigger] assets[j], pattern)
}

proof fn lemma_asset(assets: Seq<GhAsset>, pattern: Seq<char>, i: int, k: int)
    requires
        0 <= i <= k,
        is_first_wanted(assets, pattern, k),
    ensures
        asset_from(assets, pattern, i) == Some(k),
    decreases k - i,
{
    if i < k {
        assert(!is_wanted(assets[i], pattern));
        lemma_asset(assets, pattern, i + 1, k);
    }
}

proof fn lemma_no_asset(assets: Seq<GhAsset>, pattern: Seq<char>, i: int)
    requires
        0 <= i,
        none_wanted(assets, pattern),
    ensures
        asset_from(assets, pattern, i) is None,
    decreases assets.len() - i,
{
    if i < assets.len() {
        assert(!is_wanted(assets[i], pattern));
        lemma_no_asset(assets, pattern, i + 1);
    }
}

proof fn lemma_some_asset(assets: Seq<GhAsset>, pattern: Seq<char>, i: int)
    requires
        0 <= i <= assets.len(),
        forall|j: int| 0 <= j < i ==> !is_wanted(#[trigger] assets[j], pattern),
    ensures
        asset_from(assets, pattern, i) is Some <==> !none_wanted(assets, pattern),
    decreases assets.len() - i,
{
    if i < assets.len() && !is_wanted(assets[i], pattern) {
        lemma_some_asset(assets, pattern, i + 1);
    } else if i == assets.len() {
        assert(none_wanted(assets, pattern));
    }
}

/// The asset that is picked is the first that is wanted.
pub proof fn law_first_wanted_asset(
    assets: &Vec<GhAsset>,
    pattern: &str,
    r: Option<&GhAsset>,
    k: int,
)
    requires
        call_ensures(pick_asset, (assets, pattern), r),
    ensures
        is_first_wanted(assets@, pattern@, k) ==> r is Some && *(r->0) == assets@[k],
        none_wanted(assets@, pattern@) ==> r is None,
{
    if is_first_wanted(assets@, pattern@, k) {
        lemma_asset(assets@, pattern@, 0, k);
    }
    if none_wanted(assets@, pattern@) {
        lemma_no_asset(assets@, pattern@, 0);
    }
}

proof fn lemma_release(rs: Seq<GhRelease>, pattern: Seq<char>, i: int, k: int)
    requires
        0 <= i <= k < rs.len(),
        !none_wanted(rs[k].assets@, pattern),
        forall|j: int| 0 <= j < k ==> none_wanted((#[trigger] rs[j]).assets@, pattern),
    ensures
        release_from(rs, pattern, i) == Some(k),
    decreases k - i,
{
    lemma_some_asset(rs[i].assets@, pattern, 0);
    if i < k {
        assert(none_wanted(rs[i].assets@, pattern));
        lemma_release(rs, pattern, i + 1, k);
    }
}

proof fn lemma_no_release(rs: Seq<GhRelease>, pattern: Seq<char>, i: int)
    requires
        0 <= i,
        forall|j: int| 0 <= j < rs.len() ==> none_wanted((#[trigger] rs[j]).assets@, pattern),
    ensures
        release_from(rs, pattern, i) is None,
    decreases rs.len() - i,
{
    if i < rs.len() {
        assert(none_wanted(rs[i].assets@, pattern));
        lemma_some_asset(rs[i].assets@, pattern, 0);
        lemma_no_release(rs, pattern, i + 1);
    }
}

/// The latest tag is that of the first release with a wanted asset.
pub proof fn law_latest_tag(
    rs: &Vec<GhRelease>,
    repo: &str,
    pattern: &str,
    r: Result<String, String>,
    k: int,
)
    requires
        call_ensures(latest_matching_tag, (rs, repo, pattern), r),
    ensures
        0 <= k < rs@.len() && !none_wanted(rs@[k].assets@, pattern@) && (forall|j: int|
            0 <= j < k ==> none_wanted((#[trigger] rs@[j]).assets@, pattern@)) ==> r is Ok && (
        r->Ok_0)@ == rs@[k].tag_name@,
        (forall|j: int| 0 <= j < rs@.len() ==> none_wanted((#[trigger] rs@[j]).assets@, pattern@))
            ==> r is Err,
{
    if 0 <= k < rs@.len() && !none_wanted(rs@[k].assets@, pattern@) && (forall|j: int|
        0 <= j < k ==> none_wanted((#[trigger] rs@[j]).assets@, pattern@)) {
        lemma_release(rs@, pattern@, 0, k);
    }
    if forall|j: int| 0 <= j < rs@.len() ==> none_wanted((#[trigger] rs@[j]).assets@, pattern@) {
        lemma_no_release(rs@, pattern@, 0);
    }
}

/// How an artifact is unpacked: as the recipe declares, else as its name ends,
/// in whatever case.
pub proof fn law_unpacking(declared: Option<&str>, filename: &str, r: Unpack)
    requires
        call_ensures(unpack_mode, (declared, filename), r),
    ensures
        ({
            let d = match declared {
                Some(d) => d@,
                None => Seq::<char>::empty(),
            };
            let name = lowercased(filename@);
            let says_zip = d == "zip"@;
            let says_tar = d == "tar.gz"@ || d == "tgz"@ || d == "tar"@;
            let says_none = d == "none"@;
            let silent = !says_zip && !says_tar && !says_none;
            &&& says_zip ==> r == Unpack::Zip
            &&& says_tar ==> r == Unpack::TarGz
            &&& says_none ==> r == Unpack::Plain
            &&& silent && has_suffix(name, ".zip"@) ==> r == Unpack::Zip
            &&& silent && !has_suffix(name, ".zip"@) && (has_suffix(name, ".tar.gz"@)
                || has_suffix(name, ".tgz"@)) ==> r == Unpack::TarGz
            &&& silent && !has_suffix(name, ".zip"@) && !has_suffix(name, ".tar.gz"@)
                && !has_suffix(name, ".tgz"@) ==> r == Unpack::Plain
        }),
{
    reveal_strlit("zip");
    reveal_strlit("tar.gz");
    reveal_strlit("tgz");
    reveal_strlit("tar");
    reveal_strlit("none");
    assert("zip"@[0] == 'z' && "tar.gz"@[0] == 't' && "tgz"@[0] == 't' && "tar"@[0] == 't'
        && "none"@[0] == 'n');
}

/// The name of an artifact is the one that is given; else what stands behind
/// the last slash of its address, a query aside.
pub proof fn law_name_of_an_artifact(
    url: &str,
    explicit: Option<&str>,
    r: String,
    dir: Seq<char>,
    name: Seq<char>,
    query: Seq<char>,
)
    requires
        call_ensures(filename_of, (url, explicit), r),
        !name.contains('/'),
        !name.contains('?'),
        !query.contains('/'),
        url@ == dir + seq!['/'] + name || url@ == dir + seq!['/'] + (name + seq!['?'] + query),
    ensures
        explicit is Some && (explicit->0)@.len() > 0 ==> r@ == (explicit->0)@,
        explicit is None || (explicit->0)@.len() == 0 ==> r@ == if name.len() > 0 {
            name
        } else {
            "artifact"@
        },
{
    let last = if url@ == dir + seq!['/'] + name {
        name
    } else {
        name + seq!['?'] + query
    };
    let s = dir + seq!['/'] + last;
    assert(url@ == s);
    lemma_last_pos(s, '/');
    assert(s[dir.len() as int] == '/');
    let p = last_pos(s, '/')->0;
    if p > dir.len() {
        let k = p - dir.len() - 1;
        assert(s[p] == last[k]);
        if k < name.len() {
            assert(name.contains(name[k]));
        } else if k > name.len() {
            assert(query.contains(query[k - name.len() - 1]));
        }
    }
    assert(p == dir.len());
    assert(s.skip(p + 1) =~= last);
    lemma_parted(name, '?', query);
    assert(last.take(name.len() as int) =~= name);
}

/// A build is newer by its number; a tag without a number by being another.
pub proof fn law_newer(
    latest: &str,
    current: &str,
    r: bool,
    l: Option<u64>,
    c: Option<u64>,
)
    requires
        call_ensures(is_newer, (latest, current), r),
        call_ensures(parse_btag, (latest,), l),
        call_ensures(parse_btag, (current,), c),
    ensures
        l is Some && c is Some ==> r == (l->0 > c->0),
        l is None || c is None ==> r == (latest@ != current@),
{
}

/// The number of a build stands behind a `b`.
pub proof fn law_build_numbers(tag: &str, r: Option<u64>)
    requires
        call_ensures(parse_btag, (tag,), r),
    ensures
        tag@.len() == 0 || tag@[0] != 'b' ==> r is None,
        tag@.len() > 0 && tag@[0] == 'b' ==> (match r {
            Some(n) => parse_number(tag@.skip(1), 0xffff_ffff_ffff_ffff) == Some(n as nat),
            None => parse_number(tag@.skip(1), 0xffff_ffff_ffff_ffff) is None,
        }),
{
    if tag@.len() > 0 {
        assert(tag@.drop_first() =~= tag@.skip(1));
    }
}

proof fn lemma_tagged(rs: Seq<GhRelease>, tag: Seq<char>, i: int, k: int)
    requires
        0 <= i <= k < rs.len(),
        rs[k].tag_name@ == tag,
        forall|j: int| 0 <= j < k ==> (#[trigger] rs[j]).tag_name@ != tag,
    ensures
        tagged_from(rs, tag, i) == Some(k),
    decreases k - i,
{
    if i < k {
        assert(rs[i].tag_name@ != tag);
        lemma_tagged(rs, tag, i + 1, k);
    }
}

proof fn lemma_untagged(rs: Seq<GhRelease>, tag: Seq<char>, i: int)
    requires
        0 <= i,
        forall|j: int| 0 <= j < rs.len() ==> (#[trigger] rs[j]).tag_name@ != tag,
    ensures
        tagged_from(rs, tag, i) is None,
    decreases rs.len() - i,
{
    if i < rs.len() {
        assert(rs[i].tag_name@ != tag);
        lemma_untagged(rs, tag, i + 1);
    }
}

/// The tag that a recipe is to be resolved at: the one that is asked for, else
/// the one that the recipe pins.
pub open spec fn asked(m: RuntimeManifest, tag: Option<&str>) -> Option<Seq<char>> {
    match tag {
        Some(t) => Some(t@),
        None => opt_text((m.install->0)->GithubRelease_tag),
    }
}

/// Release `i` is the one that a recipe takes: the first with the tag that is
/// asked for; where none is, the first with a wanted asset.
pub open spec fn is_taken(
    rs: Seq<GhRelease>,
    asked: Option<Seq<char>>,
    pattern: Seq<char>,
    i: int,
) -> bool {
    &&& 0 <= i < rs.len()
    &&& match asked {
        Some(t) => rs[i].tag_name@ == t && forall|j: int|
            0 <= j < i ==> (#[trigger] rs[j]).tag_name@ != t,
        None => !none_wanted(rs[i].assets@, pattern) && forall|j: int|
            0 <= j < i ==> none_wanted((#[trigger] rs[j]).assets@, pattern),
    }
}

/// A release recipe downloads the wanted asset of the release that it takes,
/// under that release's tag, and keeps the declared sum.
pub proof fn law_release_recipe(
    m: &RuntimeManifest,
    tag: Option<&str>,
    rs: &Vec<GhRelease>,
    r: Result<Resolved, String>,
    i: int,
    k: int,
    name: String,
    unpack: Unpack,
    declared: Option<&str>,
    bin: String,
    url: &str,
    path: &str,
    version: &str,
    filename: &str,
)
    requires
        call_ensures(resolve_recipe, (m, tag, rs), r),
        m.install is Some,
        m.install->0 is GithubRelease,
        is_taken(rs@, asked(*m, tag), ((m.install->0)->asset_pattern)@, i),
        is_first_wanted(rs@[i].assets@, ((m.install->0)->asset_pattern)@, k),
        url@ == rs@[i].assets@[k].browser_download_url@,
        call_ensures(filename_of, (url, None), name),
        filename@ == name@,
        opt_str(declared) == opt_text((m.install->0)->GithubRelease_unpack),
        call_ensures(unpack_mode, (declared, filename), unpack),
        path@ == ((m.install->0)->GithubRelease_bin_path)@,
        version@ == rs@[i].tag_name@,
        call_ensures(substitute_tag, (path, version), bin),
    ensures
        r is Ok,
        r->Ok_0 is Download,
        ((r->Ok_0)->Download_0).url@ == url@,
        ((r->Ok_0)->Download_0).filename@ == name@,
        ((r->Ok_0)->Download_0).version@ == version@,
        ((r->Ok_0)->Download_0).unpack == unpack,
        ((r->Ok_0)->Download_0).bin_path@ == bin@,
        opt_text(((r->Ok_0)->Download_0).sha256) == opt_text((m.install->0)->GithubRelease_sha256),
{
    let pattern = ((m.install->0)->asset_pattern)@;
    lemma_asset(rs@[i].assets@, pattern, 0, k);
    match asked(*m, tag) {
        Some(t) => {
            lemma_tagged(rs@, t, 0, i);
        },
        None => {
            lemma_release(rs@, pattern, 0, i);
        },
    }
}

/// A release recipe fails where no release has the tag, or where no wanted
/// asset is to be had.
pub proof fn law_release_recipe_fails(
    m: &RuntimeManifest,
    tag: Option<&str>,
    rs: &Vec<GhRelease>,
    r: Result<Resolved, String>,
    i: int,
)
    requires
        call_ensures(resolve_recipe, (m, tag, rs), r),
        m.install is Some,
        m.install->0 is GithubRelease,
    ensures
        asked(*m, tag) is Some && (forall|j: int|
            0 <= j < rs@.len() ==> (#[trigger] rs@[j]).tag_name@ != asked(*m, tag)->0) ==> r is Err,
        asked(*m, tag) is Some && is_taken(
            rs@,
            asked(*m, tag),
            ((m.install->0)->asset_pattern)@,
            i,
        ) && none_wanted(rs@[i].assets@, ((m.install->0)->asset_pattern)@) ==> r is Err,
        asked(*m, tag) is None && (forall|j: int|
            0 <= j < rs@.len() ==> none_wanted(
                (#[trigger] rs@[j]).assets@,
                ((m.install->0)->asset_pattern)@,
            )) ==> r is Err,
{
    let pattern = ((m.install->0)->asset_pattern)@;
    match asked(*m, tag) {
        Some(t) => {
            if forall|j: int| 0 <= j < rs@.len() ==> (#[trigger] rs@[j]).tag_name@ != t {
                lemma_untagged(rs@, t, 0);
            }
            if is_taken(rs@, asked(*m, tag), pattern, i) && none_wanted(rs@[i].assets@, pattern) {
                lemma_tagged(rs@, t, 0, i);
                lemma_no_asset(rs@[i].assets@, pattern, 0);
            }
        },
        None => {
            if forall|j: int|
                0 <= j < rs@.len() ==> none_wanted((#[trigger] rs@[j]).assets@, pattern) {
                lemma_no_release(rs@, pattern, 0);
            }
        },
    }
}

/// A recipe of one address downloads it; a manual one gives its guidance; and
/// without a recipe there is nothing to do.
pub proof fn law_other_recipes(
    m: &RuntimeManifest,
    tag: Option<&str>,
    rs: &Vec<GhRelease>,
    r: Result<Resolved, String>,
    url: &str,
    explicit: Option<&str>,
    name: String,
)
    requires
        call_ensures(resolve_recipe, (m, tag, rs), r),
        m.install is Some && m.install->0 is Url ==> url@ == ((m.install->0)->Url_url)@ && opt_str(
            explicit,
        ) == opt_text((m.install->0)->filename),
        call_ensures(filename_of, (url, explicit), name),
    ensures
        m.install is None ==> r is Err,
        m.install is Some && m.install->0 is Manual ==> r is Ok && r->Ok_0 is Manual && ((
        r->Ok_0)->Manual_url)@ == ((m.install->0)->Manual_url)@ && ((r->Ok_0)->instructions)@ == ((
        m.install->0)->instructions)@,
        m.install is Some && m.install->0 is Url ==> {
            &&& r is Ok
            &&& r->Ok_0 is Download
            &&& ((r->Ok_0)->Download_0).url@ == url@
            &&& ((r->Ok_0)->Download_0).filename@ == name@
            &&& ((r->Ok_0)->Download_0).version@ == name@
            &&& opt_text(((r->Ok_0)->Download_0).sha256) == opt_text((m.install->0)->Url_sha256)
        },
{
}

/// A sum is the right one exactly where the first word of the report is it,
/// whatever the case of its letters.
pub proof fn law_sums(file: &str, report: &str, want: &str, r: Result<(), String>)
    requires
        call_ensures(verify_sha256, (file, report, want), r),
    ensures
        words(report@).len() > 0 ==> (r is Ok <==> ascii_lower(words(report@)[0]) == ascii_lower(
            trim(want@),
        )),
        words(report@).len() == 0 && trim(want@).len() > 0 ==> r is Err,
{
    if words(report@).len() == 0 && trim(want@).len() > 0 {
        assert(ascii_lower(trim(want@)).len() == trim(want@).len());
    }
}

/// Where a path leads from a directory.
pub open spec fn lands(dest: Seq<char>, path: Seq<char>) -> Seq<char> {
    if path.len() > 0 && path[0] == '/' {
        path
    } else {
        path_in(dest, path)
    }
}

/// The steps of an installation, in order: the directory, the download of the
/// address to the file, the check where a sum is declared, the unpacking, and
/// the binary that must be there.
pub proof fn law_steps(p: &InstallPlan, dest: &str, r: (Vec<InstallStep>, String))
    requires
        call_ensures(execute, (p, dest), r),
    ensures
        ({
            let s = step_views(r.0@);
            let file = lands(dest@, p.filename@);
            let bin = lands(dest@, p.bin_path@);
            let n: int = if p.sha256 is Some {
                5
            } else {
                3
            };
            let moved = path_key(file) != path_key(bin);
            &&& r.1@ == bin
            &&& s[0] == StepView::EnsureDir(dest@)
            &&& s[2] is Run && s[2]->Run_0 == "curl"@
            &&& s[2]->Run_1.last() == p.url@
            &&& s[2]->Run_1[6] == file
            &&& p.sha256 is Some ==> s[4] == StepView::CheckSum(file, (p.sha256->0)@)
            &&& p.unpack == Unpack::Zip ==> s[n + 1] is Run && s[n + 1]->Run_0 == "unzip"@ && s[n
                + 1]->Run_1 == seq!["-o"@, "-q"@, file, "-d"@, dest@]
            &&& p.unpack == Unpack::TarGz ==> s[n + 1] is Run && s[n + 1]->Run_0 == "tar"@ && s[n
                + 1]->Run_1 == seq!["xzf"@, file, "-C"@, dest@]
            &&& p.unpack == Unpack::Plain && moved ==> s[n + 1] == StepView::Rename(file, bin)
            &&& s.len() == n + 3 + if p.unpack == Unpack::Plain && !moved {
                0int
            } else {
                2
            }
            &&& s[s.len() - 3] is RequireFile && s[s.len() - 3]->RequireFile_0 == bin
            &&& s[s.len() - 2] == StepView::MakeExecutable(bin)
        }),
{
    let s = step_views(r.0@);
    assert(s[2]->Run_1.len() == 8);
}

} // verus!
